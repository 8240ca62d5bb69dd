//! Baselines made by the Python analyzer.

use crate::analyze::TOOL_NAME;
use crate::codec;
use crate::codec::{rewrite_json, zstd_encode, JsonFault};
use crate::fs_scan;
use crate::fs_scan::{
    baseline_rel_for_md5, discover_simfiles, md5_hex, RootKind, WalkEntry,
};
use crate::model::{HarnessCase, HarnessReport, ProcessOutput};
use crate::parity;
use crate::paths::{rel_path, PathView, SimPath};
use crate::text;
use crate::text::{
    chars_of, copy_of, copy_of_option, decimal_text, join2, join3, join4, part_of, same_text,
    string_of,
};
use vstd::prelude::*;

verus! {

/// The program that runs the Python analyzer on one simfile.
pub const PY_REF_SCRIPT: &'static str = r#"#!/usr/bin/env python3
import argparse
import json
import os
import sys
from pathlib import Path

def parse_bool(raw):
    return str(raw).strip().lower() in ("1", "true", "yes", "on")

def parse_args():
    ap = argparse.ArgumentParser(description="null-or-die python reference runner")
    ap.add_argument("--simfile-path", required=True)
    ap.add_argument("--report-dir", required=True)
    ap.add_argument("--source-root")
    ap.add_argument("--tolerance", type=float, required=True)
    ap.add_argument("--consider-null", required=True)
    ap.add_argument("--consider-p9ms", required=True)
    ap.add_argument("--fingerprint-ms", type=float, required=True)
    ap.add_argument("--window-ms", type=float, required=True)
    ap.add_argument("--step-ms", type=float, required=True)
    ap.add_argument("--magic-offset-ms", type=float, required=True)
    ap.add_argument("--kernel-target", required=True)
    ap.add_argument("--kernel-type", required=True)
    ap.add_argument("--full-spectrogram", required=True)
    return ap.parse_args()

def add_source_root(source_root):
    if not source_root:
        return
    root = Path(source_root).resolve()
    if root.is_file():
        root = root.parent
    sys.path.insert(0, str(root))

def parse_kernel_target(nine_or_null, raw):
    lookup = {
        "digest": nine_or_null.KernelTarget.DIGEST,
        "acc": nine_or_null.KernelTarget.ACCUMULATOR,
        "accumulator": nine_or_null.KernelTarget.ACCUMULATOR,
        "0": nine_or_null.KernelTarget.DIGEST,
        "1": nine_or_null.KernelTarget.ACCUMULATOR,
    }
    low = str(raw).strip().lower()
    if low in lookup:
        return lookup[low]
    return nine_or_null.KernelTarget(int(raw))

def parse_kernel_type(nine_or_null, raw):
    lookup = {
        "rising": nine_or_null.BiasKernel.RISING,
        "loudest": nine_or_null.BiasKernel.LOUDEST,
        "0": nine_or_null.BiasKernel.RISING,
        "1": nine_or_null.BiasKernel.LOUDEST,
    }
    low = str(raw).strip().lower()
    if low in lookup:
        return lookup[low]
    return nine_or_null.BiasKernel(int(raw))

def has_own_timing(chart):
    return any(k in chart for k in ["OFFSET", "BPMS", "STOPS", "DELAYS", "WARPS"])

def chart_rows(args, base_simfile, simfile_dir, nine_or_null, params):
    charts_within = [None]
    for chart_index, chart in enumerate(base_simfile.charts):
        if has_own_timing(chart):
            charts_within.append(chart_index)
    base_music = base_simfile.get("MUSIC", "")

    rows = []
    for chart_index in charts_within:
        fp = nine_or_null.check_sync_bias(
            simfile_dir,
            base_simfile,
            chart_index=chart_index,
            source_simfile_path=str(args.simfile_path),
            report_path=args.report_dir,
            save_plots=False,
            show_intermediate_plots=False,
            **params
        )
        bias = float(fp["bias_result"])
        confidence = float(fp["confidence"])
        paradigm = nine_or_null.guess_paradigm(bias, **params)

        if chart_index is None:
            row = {
                "chart_index": None,
                "slot": "*",
                "slot_null": "*",
                "slot_p9ms": "*",
                "steps_type": None,
                "difficulty": None,
                "description": None,
                "music": base_music,
                "chart_has_own_timing": False,
                "bias_ms": bias,
                "confidence": confidence,
                "conv_quint": float(fp.get("conv_quint")) if fp.get("conv_quint") is not None else None,
                "conv_stdev": float(fp.get("conv_stdev")) if fp.get("conv_stdev") is not None else None,
                "sample_rate": int(fp.get("sample_rate")) if fp.get("sample_rate") is not None else None,
                "paradigm": paradigm,
            }
        else:
            chart = base_simfile.charts[chart_index]
            steps_type = chart.get("STEPSTYPE")
            difficulty = chart.get("DIFFICULTY")
            description = chart.get("DESCRIPTION")
            slot = nine_or_null.slot_abbreviation(
                steps_type,
                difficulty,
                chart_index=chart_index,
                paradigm=paradigm,
            )
            row = {
                "chart_index": int(chart_index),
                "slot": slot,
                "slot_null": nine_or_null.slot_abbreviation(steps_type, difficulty, chart_index=chart_index, paradigm="null"),
                "slot_p9ms": nine_or_null.slot_abbreviation(steps_type, difficulty, chart_index=chart_index, paradigm="+9ms"),
                "steps_type": steps_type,
                "difficulty": difficulty,
                "description": description,
                "music": chart.get("MUSIC") or base_music,
                "chart_has_own_timing": has_own_timing(chart),
                "bias_ms": bias,
                "confidence": confidence,
                "conv_quint": float(fp.get("conv_quint")) if fp.get("conv_quint") is not None else None,
                "conv_stdev": float(fp.get("conv_stdev")) if fp.get("conv_stdev") is not None else None,
                "sample_rate": int(fp.get("sample_rate")) if fp.get("sample_rate") is not None else None,
                "paradigm": paradigm,
            }
        rows.append(row)

    rows.sort(key=lambda r: (-1 if r["chart_index"] is None else int(r["chart_index"])))
    return rows

def main():
    args = parse_args()
    os.makedirs(args.report_dir, exist_ok=True)
    add_source_root(args.source_root)

    import simfile
    import nine_or_null

    params = {
        "tolerance": float(args.tolerance),
        "consider_null": parse_bool(args.consider_null),
        "consider_p9ms": parse_bool(args.consider_p9ms),
        "fingerprint_ms": float(args.fingerprint_ms),
        "window_ms": float(args.window_ms),
        "step_ms": float(args.step_ms),
        "magic_offset_ms": float(args.magic_offset_ms),
        "kernel_target": parse_kernel_target(nine_or_null, args.kernel_target),
        "kernel_type": parse_kernel_type(nine_or_null, args.kernel_type),
        "full_spectrogram": parse_bool(args.full_spectrogram),
    }

    sim_path = Path(args.simfile_path).resolve()
    base = simfile.open(str(sim_path))
    rows = chart_rows(args, base, str(sim_path.parent), nine_or_null, params)

    out = {
        "tool": "nine-or-null",
        "version": nine_or_null._VERSION,
        "simfile_path": str(sim_path),
        "title": base.get("TITLE", ""),
        "titletranslit": base.get("TITLETRANSLIT", ""),
        "subtitle": base.get("SUBTITLE", ""),
        "subtitletranslit": base.get("SUBTITLETRANSLIT", ""),
        "artist": base.get("ARTIST", ""),
        "artisttranslit": base.get("ARTISTTRANSLIT", ""),
        "music": base.get("MUSIC", ""),
        "offset": float(base.get("OFFSET", "0") or "0"),
        "params": {
            "tolerance": float(args.tolerance),
            "consider_null": parse_bool(args.consider_null),
            "consider_p9ms": parse_bool(args.consider_p9ms),
            "fingerprint_ms": float(args.fingerprint_ms),
            "window_ms": float(args.window_ms),
            "step_ms": float(args.step_ms),
            "magic_offset_ms": float(args.magic_offset_ms),
            "kernel_target": str(args.kernel_target),
            "kernel_type": str(args.kernel_type),
            "full_spectrogram": parse_bool(args.full_spectrogram),
        },
        "charts": rows,
    }
    json.dump(out, sys.stdout, ensure_ascii=False, sort_keys=True, separators=(",", ":"))
    sys.stdout.write("\n")

if __name__ == "__main__":
    try:
        main()
    except Exception as exc:
        print(str(exc), file=sys.stderr)
        raise
"#;

/// What a harness run is asked for. Numbers are given as they are handed on.
#[derive(Debug, Clone)]
pub struct HarnessCmd {
    pub root_path: SimPath,
    pub baseline_path: SimPath,
    pub python_bin: String,
    pub overwrite: bool,
    pub zstd_level: i32,
    pub consider_null: bool,
    pub consider_p9ms: bool,
    pub tolerance: String,
    pub fingerprint_ms: String,
    pub window_ms: String,
    pub step_ms: String,
    pub magic_offset_ms: String,
    pub kernel_target: String,
    pub kernel_type: String,
    pub full_spectrogram: bool,
}

// ---------------------------------------------------------------------------
// Places
// ---------------------------------------------------------------------------

/// Where the Python package is taken from.
#[derive(Debug, Clone, Copy, PartialEq, Eq, Structural)]
pub enum SourceRoot {
    /// The place that is given.
    Given,
    /// The place beside which the program runs.
    Default,
    /// Wherever Python finds it.
    Unset,
}

pub fn resolve_source_root(given: bool, default_exists: bool) -> (out: SourceRoot)
    ensures
        out == (if given {
            SourceRoot::Given
        } else if default_exists {
            SourceRoot::Default
        } else {
            SourceRoot::Unset
        }),
{
    if given {
        SourceRoot::Given
    } else if default_exists {
        SourceRoot::Default
    } else {
        SourceRoot::Unset
    }
}

/// The name of the scratch directory that is made below the baselines where none
/// is given. `stamp` is the time in seconds.
pub fn scratch_dir_name(stamp: usize) -> (out: String)
    ensures
        out@ == "__null-or-die-harness-"@ + text::decimal(stamp as nat),
{
    join2("__null-or-die-harness-", &decimal_text(stamp))
}

/// Where the baseline that is written for a digest stands.
pub open spec fn fixture_rel(md5: Seq<char>) -> Seq<char> {
    fs_scan::shard(md5) + "/"@ + md5 + ".json"@ + ".zst"@
}

pub fn fixture_rel_for_md5(md5: &str) -> (out: String)
    ensures
        out@ == fixture_rel(md5@),
{
    join2(&baseline_rel_for_md5(md5), ".zst")
}

/// The baseline that is written for a digest stands where a compressed one is
/// looked for.
pub proof fn fixtures_stand_where_baselines_are_sought(md5: Seq<char>)
    ensures
        fixture_rel(md5) == fs_scan::shard(md5) + "/"@ + md5 + ".json.zst"@,
{
    reveal_strlit(".json");
    reveal_strlit(".zst");
    reveal_strlit(".json.zst");
    assert(".json"@ + ".zst"@ =~= ".json.zst"@);
    assert(fixture_rel(md5) =~= fs_scan::shard(md5) + "/"@ + md5 + (".json"@ + ".zst"@));
}

// ---------------------------------------------------------------------------
// The Python program
// ---------------------------------------------------------------------------

/// An argument of the Python program: a word, or a path that the caller knows.
#[derive(Debug, Clone)]
pub enum PyArg {
    Word(String),
    Script,
    Simfile,
    ReportDir,
    SourceRoot,
}

/// What an argument says.
pub ghost enum ArgView {
    Word(Seq<char>),
    Script,
    Simfile,
    ReportDir,
    SourceRoot,
}

impl PyArg {
    pub open spec fn view(&self) -> ArgView {
        match self {
            PyArg::Word(w) => ArgView::Word(w@),
            PyArg::Script => ArgView::Script,
            PyArg::Simfile => ArgView::Simfile,
            PyArg::ReportDir => ArgView::ReportDir,
            PyArg::SourceRoot => ArgView::SourceRoot,
        }
    }
}

pub open spec fn arg_views(args: Seq<PyArg>) -> Seq<ArgView> {
    args.map_values(|a: PyArg| a@)
}

pub open spec fn flag(value: bool) -> Seq<char> {
    if value {
        "1"@
    } else {
        "0"@
    }
}

pub fn bool_str(value: bool) -> (out: &'static str)
    ensures
        out@ == flag(value),
{
    if value {
        "1"
    } else {
        "0"
    }
}

/// An option of the Python program and its value.
pub open spec fn option_words(name: Seq<char>, value: Seq<char>) -> Seq<ArgView> {
    seq![ArgView::Word(name), ArgView::Word(value)]
}

/// The arguments of the Python program that are there in any case.
pub open spec fn python_settings(cmd: HarnessCmd) -> Seq<ArgView> {
    seq![
        ArgView::Script,
        ArgView::Word("--simfile-path"@),
        ArgView::Simfile,
        ArgView::Word("--report-dir"@),
        ArgView::ReportDir,
    ] + option_words("--tolerance"@, cmd.tolerance@) + option_words(
        "--consider-null"@,
        flag(cmd.consider_null),
    ) + option_words("--consider-p9ms"@, flag(cmd.consider_p9ms)) + option_words(
        "--fingerprint-ms"@,
        cmd.fingerprint_ms@,
    ) + option_words("--window-ms"@, cmd.window_ms@) + option_words("--step-ms"@, cmd.step_ms@)
        + option_words("--magic-offset-ms"@, cmd.magic_offset_ms@) + option_words(
        "--kernel-target"@,
        cmd.kernel_target@,
    ) + option_words("--kernel-type"@, cmd.kernel_type@) + option_words(
        "--full-spectrogram"@,
        flag(cmd.full_spectrogram),
    )
}

/// The arguments of the Python program.
pub open spec fn python_words(cmd: HarnessCmd, with_source: bool) -> Seq<ArgView> {
    if with_source {
        python_settings(cmd) + seq![ArgView::Word("--source-root"@), ArgView::SourceRoot]
    } else {
        python_settings(cmd)
    }
}

fn push_option(args: &mut Vec<PyArg>, name: &str, value: &str)
    ensures
        arg_views(final(args)@) == arg_views(old(args)@) + option_words(name@, value@),
{
    let ghost before = args@;
    args.push(PyArg::Word(name.to_owned()));
    args.push(PyArg::Word(value.to_owned()));
    assert(arg_views(args@) =~= arg_views(before) + option_words(name@, value@));
}

pub fn python_args(cmd: &HarnessCmd, with_source: bool) -> (args: Vec<PyArg>)
    ensures
        arg_views(args@) == python_words(*cmd, with_source),
{
    let mut args: Vec<PyArg> = Vec::new();
    args.push(PyArg::Script);
    args.push(PyArg::Word("--simfile-path".to_owned()));
    args.push(PyArg::Simfile);
    args.push(PyArg::Word("--report-dir".to_owned()));
    args.push(PyArg::ReportDir);
    assert(arg_views(args@) =~= seq![
        ArgView::Script,
        ArgView::Word("--simfile-path"@),
        ArgView::Simfile,
        ArgView::Word("--report-dir"@),
        ArgView::ReportDir,
    ]);
    push_option(&mut args, "--tolerance", &cmd.tolerance);
    push_option(&mut args, "--consider-null", bool_str(cmd.consider_null));
    push_option(&mut args, "--consider-p9ms", bool_str(cmd.consider_p9ms));
    push_option(&mut args, "--fingerprint-ms", &cmd.fingerprint_ms);
    push_option(&mut args, "--window-ms", &cmd.window_ms);
    push_option(&mut args, "--step-ms", &cmd.step_ms);
    push_option(&mut args, "--magic-offset-ms", &cmd.magic_offset_ms);
    push_option(&mut args, "--kernel-target", &cmd.kernel_target);
    push_option(&mut args, "--kernel-type", &cmd.kernel_type);
    push_option(&mut args, "--full-spectrogram", bool_str(cmd.full_spectrogram));
    let ghost before = args@;
    if with_source {
        args.push(PyArg::Word("--source-root".to_owned()));
        args.push(PyArg::SourceRoot);
        assert(arg_views(args@) =~= arg_views(before) + seq![
            ArgView::Word("--source-root"@),
            ArgView::SourceRoot,
        ]);
    }
    args
}

/// A text of at most so many characters; the rest is cut off and marked.
pub open spec fn cut(text: Seq<char>, max_chars: nat) -> Seq<char> {
    if text.len() <= max_chars {
        text
    } else {
        text.take(max_chars as int) + "...[truncated]"@
    }
}

pub fn trim_text(text: &str, max_chars: usize) -> (out: String)
    ensures
        out@ == cut(text@, max_chars as nat),
{
    let chars: Vec<char> = chars_of(text);
    if chars.len() <= max_chars {
        text.to_owned()
    } else {
        assert(chars@.subrange(0, max_chars as int) =~= chars@.take(max_chars as int));
        join2(&string_of(&part_of(&chars, 0, max_chars)), "...[truncated]")
    }
}

/// An exit code, as it is shown.
pub open spec fn shown_code(code: Option<i32>) -> Seq<char> {
    match code {
        None => "None"@,
        Some(n) => if n < 0 {
            "Some("@ + "-"@ + text::decimal((-n) as nat) + ")"@
        } else {
            "Some("@ + text::decimal(n as nat) + ")"@
        },
    }
}

fn show_code(code: Option<i32>) -> (out: String)
    ensures
        out@ == shown_code(code),
{
    match code {
        None => "None".to_owned(),
        Some(n) => {
            if n < 0 {
                let size: i64 = -(n as i64);
                join4("Some(", "-", &decimal_text(size as usize), ")")
            } else {
                join3("Some(", &decimal_text(n as usize), ")")
            }
        },
    }
}

/// What the Python program wrote, or what went wrong.
pub open spec fn python_said(
    bin: Seq<char>,
    launched: Result<ProcessOutput, String>,
    out: Result<Vec<u8>, String>,
) -> bool {
    match launched {
        Err(e) => out is Err && out->Err_0@ == "failed to launch "@ + bin + ": "@ + e@,
        Ok(output) => if !output.success {
            out is Err && out->Err_0@ == "python exit "@ + shown_code(output.code) + ": "@ + cut(
                output.stderr@,
                1200,
            )
        } else if output.stdout@.len() == 0 {
            out is Err && out->Err_0@ == "python reference runner returned empty output"@
        } else {
            out is Ok && out->Ok_0@ == output.stdout@
        },
    }
}

pub fn python_outcome(bin: &str, launched: Result<ProcessOutput, String>) -> (out: Result<
    Vec<u8>,
    String,
>)
    ensures
        python_said(bin@, launched, out),
{
    match launched {
        Err(e) => Err(join4("failed to launch ", bin, ": ", &e)),
        Ok(output) => {
            if output.success {
                if output.stdout.len() == 0 {
                    Err("python reference runner returned empty output".to_owned())
                } else {
                    Ok(output.stdout)
                }
            } else {
                Err(
                    join4(
                        "python exit ",
                        &show_code(output.code),
                        ": ",
                        &trim_text(&output.stderr, 1200),
                    ),
                )
            }
        },
    }
}

// ---------------------------------------------------------------------------
// Fixtures
// ---------------------------------------------------------------------------

/// A line of JSON.
pub open spec fn json_line(json: Seq<u8>) -> Seq<u8> {
    json.push(10)
}

/// Ends JSON with a line feed.
pub fn end_line(json: Vec<u8>) -> (out: Vec<u8>)
    ensures
        out@ == json_line(json@),
{
    let mut out: Vec<u8> = json;
    out.push(10);
    out
}

/// JSON in one form for all that read the same, on a line of its own.
pub open spec fn canonical(raw: Seq<u8>, out: Result<Vec<u8>, String>) -> bool {
    match out {
        Ok(line) => codec::json_rewritten(raw) is Some && line@ == json_line(
            codec::json_rewritten(raw)->Some_0,
        ),
        Err(e) => codec::json_rewritten(raw) is None && if codec::json_readable(raw) {
            exists|why: Seq<char>| e@ == "canonical json failed: "@ + why
        } else {
            exists|why: Seq<char>| e@ == "python output is not valid JSON: "@ + why
        },
    }
}

pub fn canonical_json(raw: Vec<u8>) -> (out: Result<Vec<u8>, String>)
    ensures
        canonical(raw@, out),
{
    match rewrite_json(&raw) {
        Ok(json) => Ok(end_line(json)),
        Err(JsonFault::Unreadable(why)) => {
            let e: String = join2("python output is not valid JSON: ", &why);
            assert(e@ == "python output is not valid JSON: "@ + why@);
            Err(e)
        },
        Err(JsonFault::Unwritable(why)) => {
            let e: String = join2("canonical json failed: ", &why);
            assert(e@ == "canonical json failed: "@ + why@);
            Err(e)
        },
    }
}

/// Whether a stream is a line of JSON, compressed at a level, that can be read back.
pub open spec fn packs(line: Seq<u8>, level: i32, stream: Seq<u8>) -> bool {
    codec::zstd_encoded(line, level) == Some(stream) && codec::zstd_decoded(stream) == Some(line)
}

/// Compresses a line of JSON.
pub fn pack_fixture(line: &Vec<u8>, level: i32) -> (out: Result<Vec<u8>, String>)
    ensures
        match out {
            Ok(stream) => packs(line@, level, stream@),
            Err(_) => codec::zstd_encoded(line@, level) is None,
        },
{
    zstd_encode(line, level)
}

/// A baseline that was written is read back as the line of JSON that it was made
/// from.
pub proof fn fixtures_are_read_back(
    path: PathView,
    line: Seq<u8>,
    level: i32,
    stream: Vec<u8>,
    out: Result<Vec<u8>, String>,
)
    requires
        path.with_ext("zst"@),
        packs(line, level, stream@),
        parity::baseline_bytes(path, Ok(stream), out),
    ensures
        out is Ok && out->Ok_0@ == line,
{
}

// ---------------------------------------------------------------------------
// Cases
// ---------------------------------------------------------------------------

/// A case, field by field.
pub open spec fn case_is(
    case: HarnessCase,
    rel: Seq<char>,
    md5: Seq<char>,
    baseline: Seq<char>,
    status: Seq<char>,
    error: Option<Seq<char>>,
) -> bool {
    &&& case.simfile_rel@ == rel
    &&& case.simfile_md5@ == md5
    &&& case.baseline_rel@ == baseline
    &&& case.status@ == status
    &&& text::option_view(case.error) == error
}

pub fn case_error(
    simfile_rel: String,
    simfile_md5: String,
    baseline_rel: String,
    error: String,
) -> (case: HarnessCase)
    ensures
        case_is(case, simfile_rel@, simfile_md5@, baseline_rel@, "error"@, Some(error@)),
{
    HarnessCase {
        simfile_rel,
        simfile_md5,
        baseline_rel,
        status: "error".to_owned(),
        error: Some(error),
    }
}

fn case_done(simfile_rel: String, simfile_md5: String, baseline_rel: String, status: &str) -> (case:
    HarnessCase)
    ensures
        case_is(case, simfile_rel@, simfile_md5@, baseline_rel@, status@, None),
{
    HarnessCase {
        simfile_rel,
        simfile_md5,
        baseline_rel,
        status: status.to_owned(),
        error: None,
    }
}

// ---------------------------------------------------------------------------
// Steps
// ---------------------------------------------------------------------------

/// What is to be done next to make the baseline of a simfile. A place is one below the
/// baseline directory.
#[derive(Debug, Clone)]
pub enum FixtureStep {
    /// The simfile is to be read.
    Read,
    /// It is to be looked whether there is anything at the place.
    Look { md5: String, place: String },
    /// The directory in which the Python program reports is to be made.
    MakeReportDir { md5: String, place: String },
    /// The Python program is to be run.
    RunPython { md5: String, place: String },
    /// The directory of the place is to be made.
    MakeBaselineDir { md5: String, place: String, line: Vec<u8> },
    /// The stream is to be written to the place.
    Store { md5: String, place: String, stream: Vec<u8> },
    /// Nothing is left to be done.
    Finished(HarnessCase),
}

/// What came of a step.
#[derive(Debug)]
pub enum FixtureEvent {
    Read(Result<Vec<u8>, String>),
    Looked(bool),
    Made(Result<(), String>),
    Ran(Result<ProcessOutput, String>),
    Stored(Result<(), String>),
}

impl FixtureStep {
    /// Whether an event can come of this step.
    pub open spec fn takes(self, event: FixtureEvent) -> bool {
        match self {
            FixtureStep::Read => event is Read,
            FixtureStep::Look { .. } => event is Looked,
            FixtureStep::MakeReportDir { .. } => event is Made,
            FixtureStep::RunPython { .. } => event is Ran,
            FixtureStep::MakeBaselineDir { .. } => event is Made,
            FixtureStep::Store { .. } => event is Stored,
            FixtureStep::Finished(_) => false,
        }
    }

    /// Whether this ends with an error.
    pub open spec fn failed(
        self,
        rel: Seq<char>,
        md5: Seq<char>,
        place: Seq<char>,
        e: Seq<char>,
    ) -> bool {
        self matches FixtureStep::Finished(case) && case_is(case, rel, md5, place, "error"@, Some(e))
    }

    /// Whether this is a step for a digest: the place is the one where its baseline is
    /// sought.
    pub open spec fn about(self, digest: Seq<char>) -> bool {
        match self {
            FixtureStep::Look { md5, place } => md5@ == digest && place@ == fixture_rel(digest),
            FixtureStep::MakeReportDir { md5, place } => md5@ == digest && place@ == fixture_rel(
                digest,
            ),
            FixtureStep::RunPython { md5, place } => md5@ == digest && place@ == fixture_rel(
                digest,
            ),
            FixtureStep::MakeBaselineDir { md5, place, .. } => md5@ == digest && place@
                == fixture_rel(digest),
            FixtureStep::Store { md5, place, .. } => md5@ == digest && place@ == fixture_rel(
                digest,
            ),
            _ => false,
        }
    }
}

/// Whether the Python program's answer leads to a step: its line of JSON is kept where
/// it gave one, else the error ends it all.
pub open spec fn answered(
    cmd: HarnessCmd,
    rel: Seq<char>,
    md5: Seq<char>,
    place: Seq<char>,
    launched: Result<ProcessOutput, String>,
    next: FixtureStep,
) -> bool {
    exists|output: Result<Vec<u8>, String>| #[trigger]
        python_said(cmd.python_bin@, launched, output) && match output {
            Err(e) => next.failed(rel, md5, place, e@),
            Ok(raw) => exists|line: Result<Vec<u8>, String>| #[trigger]
                canonical(raw@, line) && match line {
                    Err(e) => next.failed(rel, md5, place, e@),
                    Ok(json) => {
                        &&& next is MakeBaselineDir
                        &&& next->MakeBaselineDir_md5@ == md5
                        &&& next->MakeBaselineDir_place@ == place
                        &&& next->MakeBaselineDir_line@ == json@
                    },
                },
        }
}

/// Whether `next` is to be done where an event came of a step.
pub open spec fn leads(
    cmd: HarnessCmd,
    rel: Seq<char>,
    at: FixtureStep,
    event: FixtureEvent,
    next: FixtureStep,
) -> bool {
    match (at, event) {
        (FixtureStep::Read, FixtureEvent::Read(Err(e))) => next.failed(
            rel,
            Seq::empty(),
            Seq::empty(),
            e@,
        ),
        (FixtureStep::Read, FixtureEvent::Read(Ok(bytes))) => next is Look && next.about(
            fs_scan::hex(fs_scan::md5_digest(bytes@)),
        ),
        (FixtureStep::Look { md5, place }, FixtureEvent::Looked(there)) => if there
            && !cmd.overwrite {
            next matches FixtureStep::Finished(case) && case_is(
                case,
                rel,
                md5@,
                place@,
                "skipped_existing"@,
                None,
            )
        } else {
            next == (FixtureStep::MakeReportDir { md5, place })
        },
        (FixtureStep::MakeReportDir { md5, place }, FixtureEvent::Made(done)) => match done {
            Err(e) => next.failed(rel, md5@, place@, e@),
            Ok(()) => next == (FixtureStep::RunPython { md5, place }),
        },
        (FixtureStep::RunPython { md5, place }, FixtureEvent::Ran(launched)) => answered(
            cmd,
            rel,
            md5@,
            place@,
            launched,
            next,
        ),
        (FixtureStep::MakeBaselineDir { md5, place, line }, FixtureEvent::Made(done)) => match done {
            Err(e) => next.failed(rel, md5@, place@, e@),
            Ok(()) => if codec::zstd_encoded(line@, cmd.zstd_level) is Some {
                &&& next matches FixtureStep::Store { md5: m, place: p, stream }
                &&& m == md5
                &&& p == place
                &&& packs(line@, cmd.zstd_level, stream@)
            } else {
                exists|e: Seq<char>| #[trigger] next.failed(rel, md5@, place@, e)
            },
        },
        (FixtureStep::Store { md5, place, .. }, FixtureEvent::Stored(done)) => match done {
            Err(e) => next.failed(rel, md5@, place@, e@),
            Ok(()) => next matches FixtureStep::Finished(case) && case_is(
                case,
                rel,
                md5@,
                place@,
                "written"@,
                None,
            ),
        },
        _ => false,
    }
}

/// Takes the Python program's answer.
fn after_python(
    cmd: &HarnessCmd,
    rel: &str,
    md5: String,
    place: String,
    launched: Result<ProcessOutput, String>,
) -> (next: FixtureStep)
    ensures
        answered(*cmd, rel@, md5@, place@, launched, next),
{
    let output: Result<Vec<u8>, String> = python_outcome(&cmd.python_bin, launched);
    assert(python_said(cmd.python_bin@, launched, output));
    match output {
        Err(e) => FixtureStep::Finished(case_error(rel.to_owned(), md5, place, e)),
        Ok(raw) => {
            let line: Result<Vec<u8>, String> = canonical_json(raw);
            assert(canonical(raw@, line));
            match line {
                Err(e) => FixtureStep::Finished(case_error(rel.to_owned(), md5, place, e)),
                Ok(json) => FixtureStep::MakeBaselineDir { md5, place, line: json },
            }
        },
    }
}

/// What is to be done next for the baseline of one simfile.
pub fn run_one(cmd: &HarnessCmd, rel: &str, at: FixtureStep, event: FixtureEvent) -> (next:
    FixtureStep)
    requires
        at.takes(event),
    ensures
        leads(*cmd, rel@, at, event, next),
{
    match (at, event) {
        (FixtureStep::Read, FixtureEvent::Read(Err(e))) => {
            let blank: String = String::new();
            assert(blank@ =~= Seq::<char>::empty());
            FixtureStep::Finished(case_error(rel.to_owned(), copy_of(&blank), blank, e))
        },
        (FixtureStep::Read, FixtureEvent::Read(Ok(bytes))) => {
            let md5: String = md5_hex(bytes.as_slice());
            let place: String = fixture_rel_for_md5(&md5);
            FixtureStep::Look { md5, place }
        },
        (FixtureStep::Look { md5, place }, FixtureEvent::Looked(there)) => {
            if there && !cmd.overwrite {
                FixtureStep::Finished(case_done(rel.to_owned(), md5, place, "skipped_existing"))
            } else {
                FixtureStep::MakeReportDir { md5, place }
            }
        },
        (FixtureStep::MakeReportDir { md5, place }, FixtureEvent::Made(done)) => match done {
            Err(e) => FixtureStep::Finished(case_error(rel.to_owned(), md5, place, e)),
            Ok(()) => FixtureStep::RunPython { md5, place },
        },
        (FixtureStep::RunPython { md5, place }, FixtureEvent::Ran(launched)) => after_python(
            cmd,
            rel,
            md5,
            place,
            launched,
        ),
        (FixtureStep::MakeBaselineDir { md5, place, line }, FixtureEvent::Made(done)) => match done {
            Err(e) => FixtureStep::Finished(case_error(rel.to_owned(), md5, place, e)),
            Ok(()) => match pack_fixture(&line, cmd.zstd_level) {
                Ok(stream) => FixtureStep::Store { md5, place, stream },
                Err(e) => {
                    let ghost (d, p) = (md5@, place@);
                    let ghost why = e@;
                    let next: FixtureStep = FixtureStep::Finished(
                        case_error(rel.to_owned(), md5, place, e),
                    );
                    assert(next.failed(rel@, d, p, why));
                    next
                },
            },
        },
        (FixtureStep::Store { md5, place, .. }, FixtureEvent::Stored(done)) => match done {
            Err(e) => FixtureStep::Finished(case_error(rel.to_owned(), md5, place, e)),
            Ok(()) => FixtureStep::Finished(case_done(rel.to_owned(), md5, place, "written")),
        },
        (at, _) => at,
    }
}

/// Whether the work on a simfile went by these steps, one for each event and one more.
pub open spec fn went(
    cmd: HarnessCmd,
    rel: Seq<char>,
    steps: Seq<FixtureStep>,
    events: Seq<FixtureEvent>,
) -> bool {
    &&& steps.len() == events.len() + 1
    &&& steps[0] is Read
    &&& forall|k: int| 0 <= k < events.len() ==> #[trigger] went_on(cmd, rel, steps, events, k)
}

pub open spec fn went_on(
    cmd: HarnessCmd,
    rel: Seq<char>,
    steps: Seq<FixtureStep>,
    events: Seq<FixtureEvent>,
    k: int,
) -> bool {
    leads(cmd, rel, steps[k], events[k], steps[k + 1])
}

/// How many steps lie before this one.
spec fn stage(step: FixtureStep) -> int {
    match step {
        FixtureStep::Read => 0,
        FixtureStep::Look { .. } => 1,
        FixtureStep::MakeReportDir { .. } => 2,
        FixtureStep::RunPython { .. } => 3,
        FixtureStep::MakeBaselineDir { .. } => 4,
        FixtureStep::Store { .. } => 5,
        FixtureStep::Finished(_) => 6,
    }
}

/// The steps come in order, and only the last one can be the end.
proof fn lemma_stages(
    cmd: HarnessCmd,
    rel: Seq<char>,
    steps: Seq<FixtureStep>,
    events: Seq<FixtureEvent>,
    k: int,
)
    requires
        went(cmd, rel, steps, events),
        0 <= k < steps.len(),
    ensures
        !(steps[k] is Finished) ==> stage(steps[k]) == k,
        steps[k] is Finished ==> k == steps.len() - 1,
    decreases k,
{
    if k > 0 {
        lemma_stages(cmd, rel, steps, events, k - 1);
        assert(went_on(cmd, rel, steps, events, k - 1));
    }
    if k < events.len() {
        assert(went_on(cmd, rel, steps, events, k));
    }
}

/// Where there is a baseline that is not to be overwritten, the work ends at once: nothing
/// is made, the Python program is not run, and nothing is stored.
pub proof fn existing_baselines_are_left_alone(
    cmd: HarnessCmd,
    rel: Seq<char>,
    steps: Seq<FixtureStep>,
    events: Seq<FixtureEvent>,
    k: int,
)
    requires
        went(cmd, rel, steps, events),
        !cmd.overwrite,
        events.contains(FixtureEvent::Looked(true)),
        0 <= k < steps.len(),
    ensures
        !(steps[k] is MakeReportDir),
        !(steps[k] is RunPython),
        !(steps[k] is MakeBaselineDir),
        !(steps[k] is Store),
        steps.last() is Finished,
        steps.last()->Finished_0.status@ == "skipped_existing"@,
        steps.last()->Finished_0.error is None,
{
    let j = choose|j: int| 0 <= j < events.len() && events[j] == FixtureEvent::Looked(true);
    assert(went_on(cmd, rel, steps, events, j));
    lemma_stages(cmd, rel, steps, events, j);
    lemma_stages(cmd, rel, steps, events, j + 1);
    lemma_stages(cmd, rel, steps, events, k);
}

/// Whatever is stored is the line of JSON that the Python program gave for the simfile,
/// compressed, and it is stored where its baseline is sought. It can be read back.
pub proof fn only_answers_are_stored(
    cmd: HarnessCmd,
    rel: Seq<char>,
    steps: Seq<FixtureStep>,
    events: Seq<FixtureEvent>,
    k: int,
)
    requires
        went(cmd, rel, steps, events),
        0 <= k < steps.len(),
        steps[k] is Store,
    ensures
        k == 5,
        events[0] is Read && events[0]->Read_0 is Ok,
        steps[5].about(fs_scan::hex(fs_scan::md5_digest(events[0]->Read_0->Ok_0@))),
        events[3] is Ran && events[3]->Ran_0 is Ok,
        ({
            let output = events[3]->Ran_0->Ok_0;
            &&& output.success
            &&& codec::json_rewritten(output.stdout@) is Some
            &&& packs(
                json_line(codec::json_rewritten(output.stdout@)->Some_0),
                cmd.zstd_level,
                steps[5]->Store_stream@,
            )
        }),
{
    lemma_stages(cmd, rel, steps, events, k);
    lemma_stages(cmd, rel, steps, events, 1);
    lemma_stages(cmd, rel, steps, events, 2);
    lemma_stages(cmd, rel, steps, events, 3);
    lemma_stages(cmd, rel, steps, events, 4);
    assert(went_on(cmd, rel, steps, events, 0));
    assert(went_on(cmd, rel, steps, events, 1));
    assert(went_on(cmd, rel, steps, events, 2));
    assert(went_on(cmd, rel, steps, events, 3));
    assert(went_on(cmd, rel, steps, events, 4));
    let digest = fs_scan::hex(fs_scan::md5_digest(events[0]->Read_0->Ok_0@));
    assert(steps[1] is Look && steps[1].about(digest));
    assert(steps[2] is MakeReportDir && steps[2].about(digest));
    assert(steps[3] is RunPython && steps[3].about(digest));
    assert(steps[4] is MakeBaselineDir && steps[4].about(digest));
}

/// Where the work ends, its case is written just where a stream was stored, and has an
/// error just where something went wrong; where the Python program failed or gave no
/// JSON, that is an error and nothing is stored.
pub proof fn cases_tell_what_was_done(
    cmd: HarnessCmd,
    rel: Seq<char>,
    steps: Seq<FixtureStep>,
    events: Seq<FixtureEvent>,
)
    requires
        went(cmd, rel, steps, events),
        steps.last() is Finished,
    ensures
        ({
            let case = steps.last()->Finished_0;
            &&& case.status@ == "written"@ || case.status@ == "skipped_existing"@ || case.status@
                == "error"@
            &&& case.status@ == "error"@ <==> case.error is Some
            &&& case.status@ == "written"@ <==> events.last() is Stored && events.last()->Stored_0 is Ok
            &&& forall|k: int, output: ProcessOutput|
                #![trigger steps[k], output.success]
                0 <= k < steps.len() && events.contains(FixtureEvent::Ran(Ok(output))) && (
                !output.success || codec::json_rewritten(output.stdout@) is None) ==> case.status@
                    == "error"@ && !(steps[k] is Store)
        }),
{
    lemma_statuses_differ();
    let n = events.len() as int;
    assert(n > 0);
    assert(went_on(cmd, rel, steps, events, n - 1));
    lemma_stages(cmd, rel, steps, events, n - 1);
    lemma_stages(cmd, rel, steps, events, n);
    let case = steps.last()->Finished_0;
    assert forall|k: int, output: ProcessOutput|
        #![trigger steps[k], output.success]
        0 <= k < steps.len() && events.contains(FixtureEvent::Ran(Ok(output))) && (!output.success
            || codec::json_rewritten(output.stdout@) is None) implies case.status@ == "error"@ && !(
    steps[k] is Store) by {
        let j = choose|j: int| 0 <= j < events.len() && events[j] == FixtureEvent::Ran(Ok(output));
        assert(went_on(cmd, rel, steps, events, j));
        lemma_stages(cmd, rel, steps, events, j);
        lemma_stages(cmd, rel, steps, events, j + 1);
        lemma_stages(cmd, rel, steps, events, k);
    }
}

proof fn lemma_statuses_differ()
    ensures
        "written"@ != "skipped_existing"@,
        "written"@ != "error"@,
        "skipped_existing"@ != "error"@,
{
    reveal_strlit("written");
    reveal_strlit("skipped_existing");
    reveal_strlit("error");
    assert("written"@.len() == 7 && "skipped_existing"@.len() == 16 && "error"@.len() == 5);
}

// ---------------------------------------------------------------------------
// Reports
// ---------------------------------------------------------------------------

/// How many cases have a status.
pub open spec fn with_status(cases: Seq<HarnessCase>, status: Seq<char>) -> nat
    decreases cases.len(),
{
    if cases.len() == 0 {
        0
    } else {
        with_status(cases.drop_last(), status) + if cases.last().status@ == status {
            1nat
        } else {
            0nat
        }
    }
}

pub fn count_cases(cases: &Vec<HarnessCase>, status: &str) -> (n: usize)
    ensures
        n == with_status(cases@, status@),
{
    let mut n: usize = 0;
    let mut i: usize = 0;
    assert(cases@.take(0) =~= Seq::<HarnessCase>::empty());
    while i < cases.len()
        invariant
            i <= cases.len(),
            n <= i,
            n == with_status(cases@.take(i as int), status@),
        decreases cases.len() - i,
    {
        assert(cases@.take(i + 1).drop_last() =~= cases@.take(i as int));
        if same_text(&cases[i].status, status) {
            n += 1;
        }
        i += 1;
    }
    assert(cases@.take(i as int) =~= cases@);
    n
}

/// Whether a report counts its cases and tells what the run was asked for.
pub open spec fn report_of(
    cmd: HarnessCmd,
    version: Seq<char>,
    source_root: Option<Seq<char>>,
    scratch_path: Seq<char>,
    out: HarnessReport,
) -> bool {
    &&& out.tool@ == "null-or-die"@
    &&& out.version@ == version
    &&& out.mode@ == "python-reference-harness"@
    &&& out.root_path@ == cmd.root_path.text@
    &&& out.baseline_path@ == cmd.baseline_path.text@
    &&& out.python_bin@ == cmd.python_bin@
    &&& text::option_view(out.source_root) == source_root
    &&& out.scratch_path@ == scratch_path
    &&& out.total_simfiles == out.cases.len()
    &&& out.written == with_status(out.cases@, "written"@)
    &&& out.skipped_existing == with_status(out.cases@, "skipped_existing"@)
    &&& out.failed == with_status(out.cases@, "error"@)
}

pub fn build_report(
    cmd: &HarnessCmd,
    version: &str,
    source_root: &Option<String>,
    scratch_path: &str,
    cases: Vec<HarnessCase>,
) -> (out: HarnessReport)
    ensures
        out.cases == cases,
        report_of(*cmd, version@, text::option_view(*source_root), scratch_path@, out),
{
    HarnessReport {
        tool: TOOL_NAME.to_owned(),
        version: version.to_owned(),
        mode: "python-reference-harness".to_owned(),
        root_path: copy_of(&cmd.root_path.text),
        baseline_path: copy_of(&cmd.baseline_path.text),
        python_bin: copy_of(&cmd.python_bin),
        source_root: copy_of_option(source_root),
        scratch_path: scratch_path.to_owned(),
        total_simfiles: cases.len(),
        written: count_cases(&cases, "written"),
        skipped_existing: count_cases(&cases, "skipped_existing"),
        failed: count_cases(&cases, "error"),
        cases,
    }
}

// ---------------------------------------------------------------------------
// Runs
// ---------------------------------------------------------------------------

/// Whether the work on a simfile can have come to a step.
pub open spec fn reached(cmd: HarnessCmd, rel: Seq<char>, step: FixtureStep) -> bool {
    exists|steps: Seq<FixtureStep>, events: Seq<FixtureEvent>| #[trigger]
        went(cmd, rel, steps, events) && steps.last() == step
}

/// A run over the simfiles that were found: the cases of those that are done, and the
/// step that is to be done for the next one.
pub struct HarnessRun {
    pub cmd: HarnessCmd,
    pub found: Vec<SimPath>,
    pub cases: Vec<HarnessCase>,
    pub step: FixtureStep,
}

impl HarnessRun {
    pub open spec fn wf(self) -> bool {
        &&& forall|i: int| 0 <= i < self.found.len() ==> (#[trigger] self.found@[i])@.wf()
        &&& self.cases.len() <= self.found.len()
        &&& forall|k: int|
            0 <= k < self.cases.len() ==> reached(
                self.cmd,
                self.rel(k),
                FixtureStep::Finished(#[trigger] self.cases@[k]),
            )
        &&& !(self.step is Finished)
        &&& !self.done() ==> reached(self.cmd, self.rel(self.cases.len() as int), self.step)
    }

    /// What a simfile goes by.
    pub open spec fn rel(self, k: int) -> Seq<char> {
        self.found@[k]@.below(self.cmd.root_path@)
    }

    /// Whether all simfiles are done.
    pub open spec fn done(self) -> bool {
        self.cases.len() == self.found.len()
    }

    /// The simfile that is worked on, if any is left.
    pub fn current(&self) -> (out: Option<&SimPath>)
        requires
            self.wf(),
        ensures
            match out {
                None => self.done(),
                Some(path) => !self.done() && *path == self.found@[self.cases.len() as int],
            },
    {
        if self.cases.len() < self.found.len() {
            Some(&self.found[self.cases.len()])
        } else {
            None
        }
    }

    /// Whether `next` is this run, once an event came of its step.
    pub open spec fn goes_on(self, event: FixtureEvent, next: HarnessRun) -> bool {
        &&& next.cmd == self.cmd
        &&& next.found == self.found
        &&& exists|step: FixtureStep| #[trigger]
            leads(self.cmd, self.rel(self.cases.len() as int), self.step, event, step) && match step {
                FixtureStep::Finished(case) => next.cases@ == self.cases@.push(case)
                    && next.step is Read,
                _ => next.cases@ == self.cases@ && next.step == step,
            }
    }

    /// Takes what came of the step.
    pub fn answer(self, event: FixtureEvent) -> (next: HarnessRun)
        requires
            self.wf(),
            !self.done(),
            self.step.takes(event),
        ensures
            next.wf(),
            self.goes_on(event, next),
    {
        let HarnessRun { cmd, found, cases, step: at } = self;
        let mut cases: Vec<HarnessCase> = cases;
        let at_rel: String = rel_path(&cmd.root_path, &found[cases.len()]);
        let step: FixtureStep = run_one(&cmd, at_rel.as_str(), at, event);
        assert(leads(cmd, at_rel@, at, event, step));
        proof {
            lemma_reached(cmd, at_rel@, at, event, step);
        }
        match step {
            FixtureStep::Finished(case) => {
                let ghost before = cases@;
                cases.push(case);
                let next: HarnessRun = HarnessRun { cmd, found, cases, step: FixtureStep::Read };
                proof {
                    if !next.done() {
                        lemma_start(cmd, next.rel(next.cases.len() as int));
                    }
                    assert forall|k: int| 0 <= k < next.cases.len() implies reached(
                        next.cmd,
                        next.rel(k),
                        FixtureStep::Finished(#[trigger] next.cases@[k]),
                    ) by {
                        if k < before.len() {
                            assert(next.cases@[k] == self.cases@[k]);
                        }
                    }
                }
                next
            },
            other => HarnessRun { cmd, found, cases, step: other },
        }
    }

    /// The report of a run that is done.
    pub fn report(self, version: &str, source_root: &Option<String>, scratch_path: &str) -> (out:
        HarnessReport)
        requires
            self.wf(),
            self.done(),
        ensures
            out.cases == self.cases,
            report_of(self.cmd, version@, text::option_view(*source_root), scratch_path@, out),
            out.total_simfiles == self.found.len(),
    {
        build_report(&self.cmd, version, source_root, scratch_path, self.cases)
    }
}

proof fn lemma_start(cmd: HarnessCmd, rel: Seq<char>)
    ensures
        reached(cmd, rel, FixtureStep::Read),
{
    let steps = seq![FixtureStep::Read];
    let events = Seq::<FixtureEvent>::empty();
    assert(went(cmd, rel, steps, events));
}

proof fn lemma_reached(
    cmd: HarnessCmd,
    rel: Seq<char>,
    at: FixtureStep,
    event: FixtureEvent,
    next: FixtureStep,
)
    requires
        reached(cmd, rel, at),
        leads(cmd, rel, at, event, next),
    ensures
        reached(cmd, rel, next),
{
    let (steps, events) = choose|steps: Seq<FixtureStep>, events: Seq<FixtureEvent>| #[trigger]
        went(cmd, rel, steps, events) && steps.last() == at;
    let more = steps.push(next);
    let told = events.push(event);
    assert forall|k: int| 0 <= k < told.len() implies #[trigger] went_on(
        cmd,
        rel,
        more,
        told,
        k,
    ) by {
        if k < events.len() {
            assert(went_on(cmd, rel, steps, events, k));
        }
    }
    assert(went(cmd, rel, more, told));
}

/// Starts a run over all simfiles at the root, of which a walk came across `entries`.
pub fn run(cmd: HarnessCmd, kind: RootKind, entries: &Vec<WalkEntry>) -> (out: Result<
    HarnessRun,
    String,
>)
    requires
        cmd.root_path@.wf(),
        forall|i: int| 0 <= i < entries.len() ==> (#[trigger] entries@[i]).path@.wf(),
    ensures
        match out {
            Err(e) => fs_scan::root_fault(cmd.root_path@, kind) == Some(e@),
            Ok(run) => {
                &&& fs_scan::root_fault(cmd.root_path@, kind) is None
                &&& run.wf()
                &&& run.cmd == cmd
                &&& fs_scan::found_at(cmd.root_path@, kind, entries@, fs_scan::views(run.found@))
                &&& run.cases.len() == 0
                &&& run.step is Read
            },
        },
{
    let found: Vec<SimPath> = match discover_simfiles(&cmd.root_path, kind, entries) {
        Ok(found) => found,
        Err(e) => {
            return Err(e);
        },
    };
    proof {
        let listing = fs_scan::views(found@);
        assert forall|i: int| 0 <= i < found.len() implies (#[trigger] found@[i])@.wf() by {
            assert(listing[i] == found@[i]@);
            fs_scan::found_is_wf(cmd.root_path@, kind, entries@, listing, i);
        }
        if found.len() > 0 {
            lemma_start(cmd, found@[0]@.below(cmd.root_path@));
        }
    }
    Ok(HarnessRun { cmd, found, cases: Vec::new(), step: FixtureStep::Read })
}

/// Every case of a run that is done is counted once: the three counts add up to the number
/// of simfiles.
pub proof fn every_case_is_counted(run: HarnessRun)
    requires
        run.wf(),
        run.done(),
    ensures
        with_status(run.cases@, "written"@) + with_status(run.cases@, "skipped_existing"@)
            + with_status(run.cases@, "error"@) == run.found.len(),
{
    lemma_cases_counted(run, run.cases.len() as int);
    assert(run.cases@.take(run.cases.len() as int) =~= run.cases@);
}

proof fn lemma_cases_counted(run: HarnessRun, n: int)
    requires
        run.wf(),
        0 <= n <= run.cases.len(),
    ensures
        with_status(run.cases@.take(n), "written"@) + with_status(
            run.cases@.take(n),
            "skipped_existing"@,
        ) + with_status(run.cases@.take(n), "error"@) == n,
    decreases n,
{
    lemma_statuses_differ();
    if n > 0 {
        lemma_cases_counted(run, n - 1);
        assert(run.cases@.take(n).drop_last() =~= run.cases@.take(n - 1));
        let case = run.cases@[n - 1];
        let (steps, events) = choose|steps: Seq<FixtureStep>, events: Seq<FixtureEvent>| #[trigger]
            went(run.cmd, run.rel(n - 1), steps, events) && steps.last() == FixtureStep::Finished(
                case,
            );
        cases_tell_what_was_done(run.cmd, run.rel(n - 1), steps, events);
    }
}

// ---------------------------------------------------------------------------
// What is said
// ---------------------------------------------------------------------------

/// A text that is not too long stays as it is, and of a longer one the first characters are
/// kept, as many as are allowed, and a mark tells that it was cut.
pub proof fn long_texts_are_cut(text: Seq<char>, more: Seq<char>, max_chars: nat)
    ensures
        text.len() <= max_chars ==> cut(text, max_chars) == text,
        text.len() > max_chars ==> cut(text, max_chars).take(max_chars as int) == text.take(
            max_chars as int,
        ) && text::ends_with(cut(text, max_chars), "...[truncated]"@) && cut(
            text,
            max_chars,
        ).len() == max_chars + 14,
        text.len() == max_chars && more.len() > 0 ==> cut(text + more, max_chars) == text
            + "...[truncated]"@,
{
    reveal_strlit("...[truncated]");
    if text.len() > max_chars {
        let out = cut(text, max_chars);
        assert(out.take(max_chars as int) =~= text.take(max_chars as int));
        assert(out.skip(max_chars as int) =~= "...[truncated]"@);
    }
    if text.len() == max_chars && more.len() > 0 {
        assert((text + more).take(max_chars as int) =~= text);
    }
}

/// Exit codes are shown as they are, with a minus sign where they are negative, and a program
/// without one is shown as such.
pub proof fn exit_codes_are_shown(n: i32)
    ensures
        shown_code(None) == "None"@,
        n >= 0 ==> shown_code(Some(n)) == "Some("@ + text::decimal(n as nat) + ")"@,
        n < 0 ==> shown_code(Some(n)) == "Some(-"@ + text::decimal((-(n as int)) as nat) + ")"@,
{
    reveal_strlit("Some(");
    reveal_strlit("-");
    reveal_strlit("Some(-");
    assert("Some("@ + "-"@ =~= "Some(-"@);
    assert("Some("@ + "-"@ + text::decimal((-(n as int)) as nat) + ")"@ =~= ("Some("@ + "-"@)
        + text::decimal((-(n as int)) as nat) + ")"@);
}

/// Whether the word at `i` is the name of an option, and the word behind it its value.
pub open spec fn sets(words: Seq<ArgView>, i: int, name: Seq<char>, value: ArgView) -> bool {
    0 <= i && i + 1 < words.len() && words[i] == ArgView::Word(name) && words[i + 1] == value
}

/// The Python program is told everything that a run is asked for, each setting under its own
/// name: the script comes first, then the simfile and the directory for reports, the tolerance,
/// the paradigms that are considered, the lengths, the kernel, and, where it is known, the
/// source.
pub proof fn python_is_told_every_setting(cmd: HarnessCmd, with_source: bool)
    ensures
        ({
            let words = python_words(cmd, with_source);
            let switch = |on: bool|
                ArgView::Word(
                    if on {
                        "1"@
                    } else {
                        "0"@
                    },
                );
            &&& words.len() == (if with_source {
                27int
            } else {
                25
            })
            &&& words[0] == ArgView::Script
            &&& sets(words, 1, "--simfile-path"@, ArgView::Simfile)
            &&& sets(words, 3, "--report-dir"@, ArgView::ReportDir)
            &&& sets(words, 5, "--tolerance"@, ArgView::Word(cmd.tolerance@))
            &&& sets(words, 7, "--consider-null"@, switch(cmd.consider_null))
            &&& sets(words, 9, "--consider-p9ms"@, switch(cmd.consider_p9ms))
            &&& sets(words, 11, "--fingerprint-ms"@, ArgView::Word(cmd.fingerprint_ms@))
            &&& sets(words, 13, "--window-ms"@, ArgView::Word(cmd.window_ms@))
            &&& sets(words, 15, "--step-ms"@, ArgView::Word(cmd.step_ms@))
            &&& sets(words, 17, "--magic-offset-ms"@, ArgView::Word(cmd.magic_offset_ms@))
            &&& sets(words, 19, "--kernel-target"@, ArgView::Word(cmd.kernel_target@))
            &&& sets(words, 21, "--kernel-type"@, ArgView::Word(cmd.kernel_type@))
            &&& sets(words, 23, "--full-spectrogram"@, switch(cmd.full_spectrogram))
            &&& with_source ==> sets(words, 25, "--source-root"@, ArgView::SourceRoot)
        }),
{
}

/// What the Python program wrote counts just where it ended well and wrote anything; else
/// there is an error that says what went wrong.
pub proof fn only_good_answers_count(
    bin: Seq<char>,
    launched: Result<ProcessOutput, String>,
    out: Result<Vec<u8>, String>,
)
    requires
        python_said(bin, launched, out),
    ensures
        out is Ok <==> (launched is Ok && launched->Ok_0.success && launched->Ok_0.stdout@.len()
            > 0),
        out matches Ok(bytes) ==> bytes@ == launched->Ok_0.stdout@,
        launched matches Err(e) ==> text::ends_with(out->Err_0@, e@),
        launched is Ok && !launched->Ok_0.success && launched->Ok_0.stderr@.len() <= 1200
            ==> text::ends_with(out->Err_0@, launched->Ok_0.stderr@),
{
    match launched {
        Err(e) => {
            text::parts_are_found_where_they_stand(
                "failed to launch "@ + bin + ": "@,
                e@,
                Seq::empty(),
                Seq::empty(),
            );
        },
        Ok(output) => {
            text::parts_are_found_where_they_stand(
                "python exit "@ + shown_code(output.code) + ": "@,
                output.stderr@,
                Seq::empty(),
                Seq::empty(),
            );
        },
    }
}

/// Every case with a status is counted, and no other.
pub proof fn counts_take_every_case(cases: Seq<HarnessCase>, next: HarnessCase, status: Seq<char>)
    ensures
        with_status(Seq::empty(), status) == 0,
        with_status(cases.push(next), status) == with_status(cases, status) + (
        if next.status@ == status {
            1int
        } else {
            0
        }),
{
    assert(cases.push(next).drop_last() =~= cases);
}

/// A baseline stands in the shard of its digest, under the digest, as compressed JSON.
pub proof fn baselines_stand_in_shards(bytes: Seq<u8>)
    requires
        bytes.len() > 0,
    ensures
        fixture_rel(fs_scan::hex(bytes)) == fs_scan::hex(bytes).take(2) + "/"@ + fs_scan::hex(bytes)
            + ".json.zst"@,
{
    fs_scan::shards_are_first_digits(bytes);
    fixtures_stand_where_baselines_are_sought(fs_scan::hex(bytes));
}

/// A report says what was asked for, and its counts are those of its cases.
pub proof fn reports_tell_what_was_asked_for(
    cmd: HarnessCmd,
    version: Seq<char>,
    source_root: Option<Seq<char>>,
    scratch_path: Seq<char>,
    out: HarnessReport,
)
    requires
        report_of(cmd, version, source_root, scratch_path, out),
    ensures
        out.tool@ == "null-or-die"@ && out.version@ == version,
        out.mode@ == "python-reference-harness"@,
        out.root_path@ == cmd.root_path.text@ && out.baseline_path@ == cmd.baseline_path.text@,
        out.python_bin@ == cmd.python_bin@ && out.scratch_path@ == scratch_path,
        text::option_view(out.source_root) == source_root,
        out.total_simfiles == out.cases.len(),
        out.written == with_status(out.cases@, "written"@),
        out.skipped_existing == with_status(out.cases@, "skipped_existing"@),
        out.failed == with_status(out.cases@, "error"@),
{
}

/// A run goes on with the same command and simfiles. Its cases stay as they are until its step
/// is finished; then one more stands behind them, and the next simfile is read.
pub proof fn runs_go_on_case_by_case(run: HarnessRun, event: FixtureEvent, next: HarnessRun)
    requires
        run.goes_on(event, next),
    ensures
        next.cmd == run.cmd,
        next.found == run.found,
        next.cases.len() == run.cases.len() || next.cases.len() == run.cases.len() + 1,
        forall|k: int| 0 <= k < run.cases.len() ==> #[trigger] next.cases@[k] == run.cases@[k],
        next.cases.len() == run.cases.len() + 1 ==> next.step is Read,
        next.cases.len() == run.cases.len() ==> !(next.step is Finished),
{
}

/// A line of JSON is the JSON and the end of a line, which nothing else stands behind.
pub proof fn lines_end_with_one_byte(json: Seq<u8>)
    ensures
        json_line(json).len() == json.len() + 1,
        json_line(json).drop_last() == json,
        json_line(json).last() == 0x0a,
{
    assert(json_line(json).drop_last() =~= json);
}

/// The program is run just where no baseline is there or one is to be overwritten, and the
/// report directory was made before; else the work is done, with nothing said or with the fault
/// that was told. A program that was run leads to a baseline or to an error.
pub proof fn steps_lead_to_the_program(
    cmd: HarnessCmd,
    rel: Seq<char>,
    md5: String,
    place: String,
    event: FixtureEvent,
    next: FixtureStep,
)
    ensures
        leads(cmd, rel, FixtureStep::Look { md5, place }, event, next) ==> {
            &&& event == FixtureEvent::Looked(true) && !cmd.overwrite ==> {
                &&& next is Finished
                &&& next->Finished_0.status@ == "skipped_existing"@
                &&& next->Finished_0.error is None
                &&& next->Finished_0.simfile_md5@ == md5@
                &&& next->Finished_0.baseline_rel@ == place@
            }
            &&& event == FixtureEvent::Looked(false) || (event == FixtureEvent::Looked(true)
                && cmd.overwrite) ==> next == (FixtureStep::MakeReportDir { md5, place })
        },
        leads(cmd, rel, FixtureStep::MakeReportDir { md5, place }, event, next) ==> {
            &&& event is Made
            &&& event->Made_0 is Ok ==> next == (FixtureStep::RunPython { md5, place })
            &&& event->Made_0 is Err ==> next is Finished && next->Finished_0.status@ == "error"@
                && text::option_view(next->Finished_0.error) == Some(event->Made_0->Err_0@)
        },
        leads(cmd, rel, FixtureStep::RunPython { md5, place }, event, next) ==> {
            &&& event is Ran
            &&& next is MakeBaselineDir || (next is Finished && next->Finished_0.status@
                == "error"@)
        },
{
}

} // verus!
