//! The analysis of simfiles: its settings, what it says of each chart, and its
//! report.

use crate::audio::OggDecode;
use crate::compat;
use crate::compat::{guess_paradigm, slot_abbreviation, ToleranceBand};
use crate::model::{
    AnalyzeParams, AnalyzeReport, BiasCfg, BiasEstimate, BiasKernel, ChartScan, KernelTarget,
    SimfileScan,
};
use crate::number::Real;
use crate::fs_scan;
use crate::fs_scan::{discover_simfiles, md5_hex, RootKind, WalkEntry};
use crate::paths::{rel_path, simfile_ext, PathView, SimPath};
use crate::song;
use crate::song::{decode_song_audio_cached, AudioCache, ChartInfo, SongSummary};
use crate::text;
use crate::text::{copy_of, join2, join3, join4, same_text, to_lower, trim};
use crate::trace::{BiasEstimateWithPlot, BiasTrace};
use crate::trace_ctl::TraceCtl;
use vstd::prelude::*;

verus! {

/// The name under which reports are written.
pub const TOOL_NAME: &'static str = "null-or-die";

/// The directory that a report goes to where no other is given.
pub const REPORT_DIR: &'static str = "__bias-check";

// ---------------------------------------------------------------------------
// Settings
// ---------------------------------------------------------------------------

/// The paradigm that is asked for, if one is.
pub fn validate_paradigm(raw: Option<&str>) -> (out: Result<Option<String>, String>)
    ensures
        match raw {
            None => out is Ok && out->Ok_0 is None,
            Some(value) => if value@ == "null"@ || value@ == "+9ms"@ {
                out is Ok && text::option_view(out->Ok_0) == Some(value@)
            } else {
                out is Err && out->Err_0@ == "invalid paradigm: "@ + value@
            },
        },
{
    match raw {
        None => Ok(None),
        Some(value) => {
            if same_text(value, "null") || same_text(value, "+9ms") {
                Ok(Some(value.to_owned()))
            } else {
                Err(join2("invalid paradigm: ", value))
            }
        },
    }
}

/// What a word says of the target of the kernel.
pub open spec fn kernel_target_of(raw: Seq<char>) -> Option<KernelTarget> {
    let word = text::lower(raw);
    if word == "0"@ || word == "digest"@ {
        Some(KernelTarget::Digest)
    } else if word == "1"@ || word == "acc"@ || word == "accumulator"@ {
        Some(KernelTarget::Accumulator)
    } else {
        None
    }
}

pub fn parse_kernel_target(raw: &str) -> (out: Result<KernelTarget, String>)
    ensures
        match out {
            Ok(target) => kernel_target_of(raw@) == Some(target),
            Err(e) => kernel_target_of(raw@) is None && e@ == "invalid kernel target: "@ + raw@,
        },
{
    let word: String = to_lower(raw);
    if same_text(&word, "0") || same_text(&word, "digest") {
        Ok(KernelTarget::Digest)
    } else if same_text(&word, "1") || same_text(&word, "acc") || same_text(&word, "accumulator") {
        Ok(KernelTarget::Accumulator)
    } else {
        Err(join2("invalid kernel target: ", raw))
    }
}

/// What a word says of the kernel.
pub open spec fn kernel_type_of(raw: Seq<char>) -> Option<BiasKernel> {
    let word = text::lower(raw);
    if word == "0"@ || word == "rising"@ {
        Some(BiasKernel::Rising)
    } else if word == "1"@ || word == "loudest"@ {
        Some(BiasKernel::Loudest)
    } else {
        None
    }
}

pub fn parse_kernel_type(raw: &str) -> (out: Result<BiasKernel, String>)
    ensures
        match out {
            Ok(kernel) => kernel_type_of(raw@) == Some(kernel),
            Err(e) => kernel_type_of(raw@) is None && e@ == "invalid kernel type: "@ + raw@,
        },
{
    let word: String = to_lower(raw);
    if same_text(&word, "0") || same_text(&word, "rising") {
        Ok(BiasKernel::Rising)
    } else if same_text(&word, "1") || same_text(&word, "loudest") {
        Ok(BiasKernel::Loudest)
    } else {
        Err(join2("invalid kernel type: ", raw))
    }
}

/// Where a report goes: to the directory that is given, or to one of its own
/// beside a root that is a file, or in a root that is none.
#[derive(Debug, Clone, Copy, PartialEq, Eq, Structural)]
pub enum ReportPlace {
    Given,
    BesideRoot,
    InRoot,
}

pub fn resolve_report_path(root: &SimPath, root_is_file: bool, given: bool) -> (out: Result<
    ReportPlace,
    String,
>)
    ensures
        match out {
            Ok(place) => place == (if given {
                ReportPlace::Given
            } else if root_is_file {
                ReportPlace::BesideRoot
            } else {
                ReportPlace::InRoot
            }),
            Err(e) => e@ == "cannot resolve parent dir for "@ + root.text@,
        },
        out is Err <==> !given && root_is_file && !root@.parented(),
{
    if given {
        return Ok(ReportPlace::Given);
    }
    if root_is_file {
        if root.has_parent() {
            Ok(ReportPlace::BesideRoot)
        } else {
            Err(join2("cannot resolve parent dir for ", &root.text))
        }
    } else {
        Ok(ReportPlace::InRoot)
    }
}

/// What an analysis is asked for.
#[derive(Debug, Clone)]
pub struct AnalyzeArgs {
    pub root_path: String,
    pub to_paradigm: Option<String>,
    pub consider_null: bool,
    pub consider_p9ms: bool,
    pub tolerance: ToleranceBand,
    pub confidence_limit: Real,
    pub fingerprint_ms: Real,
    pub window_ms: Real,
    pub step_ms: Real,
    pub magic_offset_ms: Real,
    pub kernel_target: String,
    pub kernel_type: String,
    pub full_spectrogram: bool,
}

/// Why an analysis cannot be run as asked, if it cannot be: the paradigm is
/// looked at first, the kernel last.
pub open spec fn args_fault(args: AnalyzeArgs) -> Option<Seq<char>> {
    if args.to_paradigm is Some && args.to_paradigm->Some_0@ != "null"@
        && args.to_paradigm->Some_0@ != "+9ms"@ {
        Some("invalid paradigm: "@ + args.to_paradigm->Some_0@)
    } else if kernel_target_of(args.kernel_target@) is None {
        Some("invalid kernel target: "@ + args.kernel_target@)
    } else if kernel_type_of(args.kernel_type@) is None {
        Some("invalid kernel type: "@ + args.kernel_type@)
    } else {
        None
    }
}

pub fn build_params(args: &AnalyzeArgs, report_path: &str) -> (out: Result<AnalyzeParams, String>)
    ensures
        match out {
            Err(e) => args_fault(*args) == Some(e@),
            Ok(params) => {
                &&& args_fault(*args) is None
                &&& params.root_path@ == args.root_path@
                &&& params.report_path@ == report_path@
                &&& params.consider_null == args.consider_null
                &&& params.consider_p9ms == args.consider_p9ms
                &&& params.tolerance == args.tolerance
                &&& params.confidence_limit == args.confidence_limit
                &&& params.fingerprint_ms == args.fingerprint_ms
                &&& params.window_ms == args.window_ms
                &&& params.step_ms == args.step_ms
                &&& params.magic_offset_ms == args.magic_offset_ms
                &&& kernel_target_of(args.kernel_target@) == Some(params.kernel_target)
                &&& kernel_type_of(args.kernel_type@) == Some(params.kernel_type)
                &&& params.full_spectrogram == args.full_spectrogram
                &&& text::option_view(params.to_paradigm) == text::option_view(args.to_paradigm)
            },
        },
{
    let asked: Option<&str> = match &args.to_paradigm {
        Some(value) => Some(value.as_str()),
        None => None,
    };
    let to_paradigm: Option<String> = match validate_paradigm(asked) {
        Ok(value) => value,
        Err(e) => {
            return Err(e);
        },
    };
    let kernel_target: KernelTarget = match parse_kernel_target(&args.kernel_target) {
        Ok(target) => target,
        Err(e) => {
            return Err(e);
        },
    };
    let kernel_type: BiasKernel = match parse_kernel_type(&args.kernel_type) {
        Ok(kernel) => kernel,
        Err(e) => {
            return Err(e);
        },
    };
    Ok(
        AnalyzeParams {
            root_path: copy_of(&args.root_path),
            report_path: report_path.to_owned(),
            consider_null: args.consider_null,
            consider_p9ms: args.consider_p9ms,
            tolerance: args.tolerance,
            confidence_limit: args.confidence_limit,
            fingerprint_ms: args.fingerprint_ms,
            window_ms: args.window_ms,
            step_ms: args.step_ms,
            magic_offset_ms: args.magic_offset_ms,
            kernel_target,
            kernel_type,
            full_spectrogram: args.full_spectrogram,
            to_paradigm,
        },
    )
}

pub fn bias_cfg_from_params(params: &AnalyzeParams) -> (out: BiasCfg)
    ensures
        out == (BiasCfg {
            fingerprint_ms: params.fingerprint_ms,
            window_ms: params.window_ms,
            step_ms: params.step_ms,
            magic_offset_ms: params.magic_offset_ms,
            kernel_target: params.kernel_target,
            kernel_type: params.kernel_type,
            full_spectrogram: params.full_spectrogram,
        }),
{
    BiasCfg {
        fingerprint_ms: params.fingerprint_ms,
        window_ms: params.window_ms,
        step_ms: params.step_ms,
        magic_offset_ms: params.magic_offset_ms,
        kernel_target: params.kernel_target,
        kernel_type: params.kernel_type,
        full_spectrogram: params.full_spectrogram,
    }
}

/// The settings that an estimate has by itself: a fingerprint of 50 ms, windows
/// of 10 ms that stand 0.2 ms apart, no offset, and the rising kernel over the
/// digest. The four numbers are given by their bit patterns.
pub fn default_bias_cfg() -> (out: BiasCfg)
    ensures
        out == (BiasCfg {
            fingerprint_ms: Real { bits: 0x4049_0000_0000_0000 },
            window_ms: Real { bits: 0x4024_0000_0000_0000 },
            step_ms: Real { bits: 0x3fc9_9999_9999_999a },
            magic_offset_ms: Real { bits: 0 },
            kernel_target: KernelTarget::Digest,
            kernel_type: BiasKernel::Rising,
            full_spectrogram: false,
        }),
{
    BiasCfg {
        fingerprint_ms: Real { bits: 0x4049_0000_0000_0000 },
        window_ms: Real { bits: 0x4024_0000_0000_0000 },
        step_ms: Real { bits: 0x3fc9_9999_9999_999a },
        magic_offset_ms: Real { bits: 0 },
        kernel_target: KernelTarget::Digest,
        kernel_type: BiasKernel::Rising,
        full_spectrogram: false,
    }
}

// ---------------------------------------------------------------------------
// Charts
// ---------------------------------------------------------------------------

/// A chart of which nothing is known yet but what its simfile says.
pub open spec fn fresh_scan(chart: ChartInfo, i: int, scan: ChartScan) -> bool {
    &&& scan.chart_index == i
    &&& scan.steps_type@ == chart.step_type@
    &&& scan.difficulty@ == chart.difficulty@
    &&& scan.description@ == chart.description@
    &&& scan.music_tag is None
    &&& scan.slot_null@ == compat::abbreviation(
        chart.step_type@,
        chart.difficulty@,
        i as nat,
        "null"@,
    )
    &&& scan.slot_p9ms@ == compat::abbreviation(
        chart.step_type@,
        chart.difficulty@,
        i as nat,
        "+9ms"@,
    )
    &&& scan.chart_has_own_timing == chart.has_own_timing
    &&& scan.status@ == "stub"@
    &&& scan.bias_ms is None
    &&& scan.confidence is None
    &&& scan.conv_quint is None
    &&& scan.conv_stdev is None
    &&& scan.paradigm is None
}

pub fn charts_from_summary(charts: &Vec<ChartInfo>) -> (out: Vec<ChartScan>)
    ensures
        out.len() == charts.len(),
        forall|i: int|
            0 <= i < out.len() ==> fresh_scan(charts@[i], i, #[trigger] out@[i]),
{
    let mut out: Vec<ChartScan> = Vec::new();
    let mut i: usize = 0;
    while i < charts.len()
        invariant
            i <= charts.len(),
            out.len() == i,
            forall|k: int| 0 <= k < i ==> fresh_scan(charts@[k], k, #[trigger] out@[k]),
        decreases charts.len() - i,
    {
        let chart: &ChartInfo = &charts[i];
        out.push(
            ChartScan {
                chart_index: i,
                steps_type: copy_of(&chart.step_type),
                difficulty: copy_of(&chart.difficulty),
                description: copy_of(&chart.description),
                music_tag: None,
                slot_null: slot_abbreviation(&chart.step_type, &chart.difficulty, i, "null"),
                slot_p9ms: slot_abbreviation(&chart.step_type, &chart.difficulty, i, "+9ms"),
                chart_has_own_timing: chart.has_own_timing,
                status: "stub".to_owned(),
                bias_ms: None,
                confidence: None,
                conv_quint: None,
                conv_stdev: None,
                paradigm: None,
            },
        );
        i += 1;
    }
    out
}

/// The music of a chart: its own, where it names any, else that of its song;
/// either without the white space round it.
pub open spec fn music_tag_of(own: Option<Seq<char>>, song: Seq<char>) -> Seq<char> {
    match own {
        Some(tag) => if text::trimmed(tag).len() > 0 {
            text::trimmed(tag)
        } else {
            text::trimmed(song)
        },
        None => text::trimmed(song),
    }
}

pub fn choose_music_tag(chart_music: Option<&str>, fallback: &str) -> (out: String)
    ensures
        out@ == music_tag_of(text::option_str_view(chart_music), fallback@),
{
    match chart_music {
        Some(tag) => {
            let own: String = trim(tag);
            if own.as_str().is_empty() {
                trim(fallback)
            } else {
                own
            }
        },
        None => trim(fallback),
    }
}

/// The music of each of `count` charts that name none of their own.
pub fn chart_music_tags(count: usize, fallback: &str) -> (out: Vec<String>)
    ensures
        out.len() == count,
        forall|i: int| 0 <= i < count ==> (#[trigger] out@[i])@ == text::trimmed(fallback@),
{
    let mut out: Vec<String> = Vec::new();
    let mut i: usize = 0;
    while i < count
        invariant
            i <= count,
            out.len() == i,
            forall|k: int| 0 <= k < i ==> (#[trigger] out@[k])@ == text::trimmed(fallback@),
        decreases count - i,
    {
        out.push(choose_music_tag(None, fallback));
        i += 1;
    }
    out
}

/// A chart whose music is set where there is any.
pub open spec fn with_music(before: ChartScan, tag: Seq<char>, after: ChartScan) -> bool {
    &&& after == (ChartScan { music_tag: after.music_tag, ..before })
    &&& if text::trimmed(tag).len() > 0 {
        text::option_view(after.music_tag) == Some(text::trimmed(tag))
    } else {
        after.music_tag == before.music_tag
    }
}

/// Sets the music of the charts, as far as there are tags.
pub fn assign_chart_music(charts: &mut Vec<ChartScan>, tags: &Vec<String>)
    ensures
        final(charts).len() == old(charts).len(),
        forall|i: int|
            0 <= i < final(charts).len() ==> if i < tags.len() {
                with_music(old(charts)@[i], tags@[i]@, #[trigger] final(charts)@[i])
            } else {
                final(charts)@[i] == old(charts)@[i]
            },
{
    let ghost start = charts@;
    let mut i: usize = 0;
    while i < charts.len() && i < tags.len()
        invariant
            i <= charts.len(),
            i <= tags.len(),
            charts.len() == start.len(),
            forall|k: int|
                0 <= k < i ==> with_music(start[k], tags@[k]@, #[trigger] charts@[k]),
            forall|k: int| i <= k < charts.len() ==> #[trigger] charts@[k] == start[k],
        decreases charts.len() - i,
    {
        let own: String = trim(&tags[i]);
        if !own.as_str().is_empty() {
            charts[i].music_tag = Some(own);
        }
        i += 1;
    }
}

/// A remark in brackets behind a description, if there is one.
pub open spec fn remarked(description: Seq<char>, remark: Seq<char>) -> Seq<char> {
    if text::trimmed(description).len() == 0 {
        "["@ + remark + "]"@
    } else {
        description + " ["@ + remark + "]"@
    }
}

pub fn append_error(desc: &str, extra: &str) -> (out: String)
    ensures
        out@ == remarked(desc@, extra@),
{
    if trim(desc).as_str().is_empty() {
        join3("[", extra, "]")
    } else {
        join4(desc, " [", extra, "]")
    }
}

/// Which paradigms come into question: the one that is asked for alone, or
/// those that are considered.
pub open spec fn considered(params: AnalyzeParams) -> (bool, bool) {
    if text::option_view(params.to_paradigm) == Some("null"@) {
        (true, false)
    } else if text::option_view(params.to_paradigm) == Some("+9ms"@) {
        (false, true)
    } else {
        (params.consider_null, params.consider_p9ms)
    }
}

pub fn target_paradigm_flags(params: &AnalyzeParams) -> (out: (bool, bool))
    ensures
        out == considered(*params),
{
    proof {
        reveal_strlit("null");
        reveal_strlit("+9ms");
        assert("null"@[0] != "+9ms"@[0]);
    }
    match &params.to_paradigm {
        Some(value) => {
            if same_text(value, "null") {
                (true, false)
            } else if same_text(value, "+9ms") {
                (false, true)
            } else {
                (params.consider_null, params.consider_p9ms)
            }
        },
        None => (params.consider_null, params.consider_p9ms),
    }
}

/// The paradigm that an estimate speaks for: none where it is not sure enough.
pub open spec fn verdict(bias_ms: Real, confidence: Real, params: AnalyzeParams) -> Seq<char> {
    if confidence.less(params.confidence_limit) {
        "????"@
    } else {
        compat::paradigm_name(
            bias_ms,
            params.tolerance,
            considered(params).0,
            considered(params).1,
            true,
        )
    }
}

pub fn resolve_paradigm(bias_ms: Real, confidence: Real, params: &AnalyzeParams) -> (out: String)
    ensures
        out@ == verdict(bias_ms, confidence, *params),
{
    if confidence.is_less(params.confidence_limit) {
        return "????".to_owned();
    }
    let (null, p9): (bool, bool) = target_paradigm_flags(params);
    guess_paradigm(bias_ms, params.tolerance, null, p9, true).to_owned()
}

/// A paradigm that is asked for is the only one that can be found, and an
/// estimate below the limit finds none.
pub proof fn verdicts_respect_the_target(bias_ms: Real, confidence: Real, params: AnalyzeParams)
    ensures
        ({
            let found = verdict(bias_ms, confidence, params);
            &&& found == "null"@ || found == "+9ms"@ || found == "????"@
            &&& text::option_view(params.to_paradigm) == Some("null"@) ==> found != "+9ms"@
            &&& text::option_view(params.to_paradigm) == Some("+9ms"@) ==> found != "null"@
            &&& confidence.less(params.confidence_limit) ==> found == "????"@
        }),
{
    reveal_strlit("null");
    reveal_strlit("+9ms");
    reveal_strlit("????");
    assert("null"@[0] != "+9ms"@[0]);
    assert("????"@[0] != "+9ms"@[0]);
    assert("????"@[0] != "null"@[0]);
}

/// Enters an estimate.
pub fn write_bias(scan: &mut ChartScan, est: BiasEstimate, params: &AnalyzeParams)
    ensures
        *final(scan) == (ChartScan {
            status: final(scan).status,
            bias_ms: Some(est.bias_ms),
            confidence: Some(est.confidence),
            conv_quint: Some(est.conv_quint),
            conv_stdev: Some(est.conv_stdev),
            paradigm: final(scan).paradigm,
            ..*old(scan)
        }),
        final(scan).status@ == "computed"@,
        text::option_view(final(scan).paradigm) == Some(
            verdict(est.bias_ms, est.confidence, *params),
        ),
{
    scan.status = "computed".to_owned();
    scan.bias_ms = Some(est.bias_ms);
    scan.confidence = Some(est.confidence);
    scan.conv_quint = Some(est.conv_quint);
    scan.conv_stdev = Some(est.conv_stdev);
    scan.paradigm = Some(resolve_paradigm(est.bias_ms, est.confidence, params));
}

/// A chart of which no bias is known, for a reason that its description names.
pub open spec fn failed_scan(
    before: ChartScan,
    status: Seq<char>,
    remark: Seq<char>,
    after: ChartScan,
) -> bool {
    &&& after == (ChartScan {
        status: after.status,
        paradigm: after.paradigm,
        description: after.description,
        ..before
    })
    &&& after.status@ == status
    &&& text::option_view(after.paradigm) == Some("????"@)
    &&& after.description@ == remarked(before.description@, remark)
}

pub fn write_bias_error(scan: &mut ChartScan, err: &str)
    ensures
        failed_scan(*old(scan), "bias_error"@, "bias_error: "@ + err@, *final(scan)),
{
    scan.status = "bias_error".to_owned();
    scan.paradigm = Some("????".to_owned());
    let remark: String = append_error(&scan.description, &join2("bias_error: ", err));
    scan.description = remark;
}

pub fn write_audio_error(scan: &mut ChartScan, err: &str)
    ensures
        failed_scan(*old(scan), "audio_unavailable"@, "audio_unavailable: "@ + err@, *final(scan)),
{
    scan.status = "audio_unavailable".to_owned();
    scan.paradigm = Some("????".to_owned());
    let remark: String = append_error(&scan.description, &join2("audio_unavailable: ", err));
    scan.description = remark;
}

/// Notes that the plots of a chart could not be written.
pub fn write_plot_error(scan: &mut ChartScan, err: &str)
    ensures
        *final(scan) == (ChartScan { description: final(scan).description, ..*old(scan) }),
        final(scan).description@ == remarked(old(scan).description@, "plot_error: "@ + err@),
{
    let remark: String = append_error(&scan.description, &join2("plot_error: ", err));
    scan.description = remark;
}

/// What is made of a chart besides its estimate: plots where they are asked for,
/// else a trace where the chart is traced. A plotted chart that is traced gets
/// its trace afterwards.
#[derive(Debug, Clone, Copy, PartialEq, Eq, Structural)]
pub enum ChartMode {
    Plain,
    Traced,
    Plotted,
    PlottedAndTraced,
}

pub fn chart_mode(plot: bool, traced: bool) -> (out: ChartMode)
    ensures
        out == (if plot && traced {
            ChartMode::PlottedAndTraced
        } else if plot {
            ChartMode::Plotted
        } else if traced {
            ChartMode::Traced
        } else {
            ChartMode::Plain
        }),
{
    if plot {
        if traced {
            ChartMode::PlottedAndTraced
        } else {
            ChartMode::Plotted
        }
    } else if traced {
        ChartMode::Traced
    } else {
        ChartMode::Plain
    }
}

/// What an estimate of a chart came to: nothing, or an estimate, with or without a fault
/// in its plots.
pub enum ChartResult {
    NoEstimate(String),
    Estimated(BiasEstimate, Option<String>),
}

/// What is to be done next for a chart. What is kept is the estimate that stands already,
/// and the fault in its plots.
pub enum ChartStep {
    /// The bias is to be estimated.
    Estimate,
    /// The bias is to be estimated with a trace.
    Trace { kept: Option<(BiasEstimate, Option<String>)> },
    /// The bias is to be estimated with what can be plotted of it.
    Plot,
    /// The plots are to be drawn.
    Draw(BiasEstimateWithPlot),
    /// The trace is to be stored.
    Dump { est: BiasEstimate, trace: BiasTrace, kept: (BiasEstimate, Option<String>) },
    /// Nothing is left to be done.
    Finished(ChartResult),
}

/// What came of a step.
pub enum ChartEvent {
    Estimated(Result<BiasEstimate, String>),
    Traced(Result<(BiasEstimate, BiasTrace), String>),
    Plotted(Result<BiasEstimateWithPlot, String>),
    Drawn(Result<(), String>),
    Dumped(Result<(), String>),
}

impl ChartStep {
    /// Whether an event can come of this step.
    pub open spec fn takes(self, event: ChartEvent) -> bool {
        match self {
            ChartStep::Estimate => event is Estimated,
            ChartStep::Trace { .. } => event is Traced,
            ChartStep::Plot => event is Plotted,
            ChartStep::Draw(_) => event is Drawn,
            ChartStep::Dump { .. } => event is Dumped,
            ChartStep::Finished(_) => false,
        }
    }
}

/// What is to be done first.
pub open spec fn chart_start(mode: ChartMode) -> ChartStep {
    match mode {
        ChartMode::Plain => ChartStep::Estimate,
        ChartMode::Traced => ChartStep::Trace { kept: None },
        ChartMode::Plotted => ChartStep::Plot,
        ChartMode::PlottedAndTraced => ChartStep::Plot,
    }
}

pub fn first_chart_step(mode: ChartMode) -> (step: ChartStep)
    ensures
        step == chart_start(mode),
{
    match mode {
        ChartMode::Plain => ChartStep::Estimate,
        ChartMode::Traced => ChartStep::Trace { kept: None },
        ChartMode::Plotted => ChartStep::Plot,
        ChartMode::PlottedAndTraced => ChartStep::Plot,
    }
}

/// What is kept of an estimate that was drawn.
pub open spec fn drawn(est: BiasEstimate, done: Result<(), String>) -> (
    BiasEstimate,
    Option<String>,
) {
    (
        est,
        match done {
            Ok(_) => None,
            Err(e) => Some(e),
        },
    )
}

/// What is to be done where an event came of a step. A trace that cannot be made or stored
/// takes nothing from an estimate that stands.
pub open spec fn chart_next(mode: ChartMode, at: ChartStep, event: ChartEvent) -> ChartStep {
    match (at, event) {
        (ChartStep::Estimate, ChartEvent::Estimated(found)) => match found {
            Ok(est) => ChartStep::Finished(ChartResult::Estimated(est, None)),
            Err(e) => ChartStep::Finished(ChartResult::NoEstimate(e)),
        },
        (ChartStep::Trace { kept }, ChartEvent::Traced(found)) => match found {
            Ok(pair) => ChartStep::Dump {
                est: pair.0,
                trace: pair.1,
                kept: match kept {
                    Some(kept) => kept,
                    None => (pair.0, None),
                },
            },
            Err(e) => match kept {
                Some(kept) => ChartStep::Finished(ChartResult::Estimated(kept.0, kept.1)),
                None => ChartStep::Finished(ChartResult::NoEstimate(e)),
            },
        },
        (ChartStep::Plot, ChartEvent::Plotted(found)) => match found {
            Ok(v) => ChartStep::Draw(v),
            Err(e) => ChartStep::Finished(ChartResult::NoEstimate(e)),
        },
        (ChartStep::Draw(v), ChartEvent::Drawn(done)) => if mode == ChartMode::PlottedAndTraced {
            ChartStep::Trace { kept: Some(drawn(v.estimate, done)) }
        } else {
            ChartStep::Finished(ChartResult::Estimated(v.estimate, drawn(v.estimate, done).1))
        },
        (ChartStep::Dump { kept, .. }, ChartEvent::Dumped(_)) => ChartStep::Finished(
            ChartResult::Estimated(kept.0, kept.1),
        ),
        _ => at,
    }
}

pub fn next_chart_step(mode: ChartMode, at: ChartStep, event: ChartEvent) -> (next: ChartStep)
    requires
        at.takes(event),
    ensures
        next == chart_next(mode, at, event),
{
    match (at, event) {
        (ChartStep::Estimate, ChartEvent::Estimated(found)) => match found {
            Ok(est) => ChartStep::Finished(ChartResult::Estimated(est, None)),
            Err(e) => ChartStep::Finished(ChartResult::NoEstimate(e)),
        },
        (ChartStep::Trace { kept }, ChartEvent::Traced(found)) => match found {
            Ok(pair) => ChartStep::Dump {
                est: pair.0,
                trace: pair.1,
                kept: match kept {
                    Some(kept) => kept,
                    None => (pair.0, None),
                },
            },
            Err(e) => match kept {
                Some(kept) => ChartStep::Finished(ChartResult::Estimated(kept.0, kept.1)),
                None => ChartStep::Finished(ChartResult::NoEstimate(e)),
            },
        },
        (ChartStep::Plot, ChartEvent::Plotted(found)) => match found {
            Ok(v) => ChartStep::Draw(v),
            Err(e) => ChartStep::Finished(ChartResult::NoEstimate(e)),
        },
        (ChartStep::Draw(v), ChartEvent::Drawn(done)) => {
            let fault: Option<String> = match done {
                Ok(_) => None,
                Err(e) => Some(e),
            };
            match mode {
                ChartMode::PlottedAndTraced => ChartStep::Trace { kept: Some((v.estimate, fault)) },
                _ => ChartStep::Finished(ChartResult::Estimated(v.estimate, fault)),
            }
        },
        (ChartStep::Dump { kept, .. }, ChartEvent::Dumped(_)) => ChartStep::Finished(
            ChartResult::Estimated(kept.0, kept.1),
        ),
        (at, _) => at,
    }
}

/// Whether the work on a chart went by these steps, one for each event and one more.
pub open spec fn chart_went(
    mode: ChartMode,
    steps: Seq<ChartStep>,
    events: Seq<ChartEvent>,
) -> bool {
    &&& steps.len() == events.len() + 1
    &&& steps[0] == chart_start(mode)
    &&& forall|k: int| 0 <= k < events.len() ==> #[trigger] chart_went_on(mode, steps, events, k)
}

pub open spec fn chart_went_on(
    mode: ChartMode,
    steps: Seq<ChartStep>,
    events: Seq<ChartEvent>,
    k: int,
) -> bool {
    steps[k].takes(events[k]) && steps[k + 1] == chart_next(mode, steps[k], events[k])
}

/// Plots are drawn only where plots are asked for, and traces stored only where the chart is
/// traced. Where the first estimate fails, nothing is drawn or stored.
pub proof fn charts_leave_what_is_asked_for(
    mode: ChartMode,
    steps: Seq<ChartStep>,
    events: Seq<ChartEvent>,
    k: int,
)
    requires
        chart_went(mode, steps, events),
        0 <= k < steps.len(),
    ensures
        steps[k] is Draw ==> mode == ChartMode::Plotted || mode == ChartMode::PlottedAndTraced,
        steps[k] is Dump ==> mode == ChartMode::Traced || mode == ChartMode::PlottedAndTraced,
        steps[k] is Finished && steps[k]->Finished_0 is NoEstimate ==> k == 1,
        steps.len() <= 5,
    decreases k,
{
    lemma_chart_stage(mode, steps, events, k);
    lemma_chart_stage(mode, steps, events, steps.len() - 1);
}

/// How many steps lie before this one.
spec fn chart_stage(mode: ChartMode, step: ChartStep) -> int {
    match step {
        ChartStep::Estimate => 0,
        ChartStep::Plot => 0,
        ChartStep::Draw(_) => 1,
        ChartStep::Trace { kept } => if kept is Some {
            2
        } else {
            0
        },
        ChartStep::Dump { .. } => if mode == ChartMode::Traced {
            1
        } else {
            3
        },
        ChartStep::Finished(_) => 4,
    }
}

proof fn lemma_chart_stage(
    mode: ChartMode,
    steps: Seq<ChartStep>,
    events: Seq<ChartEvent>,
    k: int,
)
    requires
        chart_went(mode, steps, events),
        0 <= k < steps.len(),
    ensures
        !(steps[k] is Finished) ==> chart_stage(mode, steps[k]) == k,
        steps[k] is Finished ==> k <= 4,
        steps[k] is Finished && steps[k]->Finished_0 is NoEstimate ==> k == 1,
        match steps[k] {
            ChartStep::Estimate => mode == ChartMode::Plain,
            ChartStep::Trace { kept } => if kept is Some {
                mode == ChartMode::PlottedAndTraced
            } else {
                mode == ChartMode::Traced
            },
            ChartStep::Plot => mode == ChartMode::Plotted || mode == ChartMode::PlottedAndTraced,
            ChartStep::Draw(_) => mode == ChartMode::Plotted || mode == ChartMode::PlottedAndTraced,
            ChartStep::Dump { .. } => mode == ChartMode::Traced || mode
                == ChartMode::PlottedAndTraced,
            ChartStep::Finished(_) => true,
        },
    decreases k,
{
    if k > 0 {
        lemma_chart_stage(mode, steps, events, k - 1);
        assert(chart_went_on(mode, steps, events, k - 1));
    }
}

/// What came of a chart: no audio, or what its estimate came to.
pub enum ChartOutcome {
    NoAudio(String),
    Tried(ChartResult),
}

/// What a chart says once its outcome is entered.
pub open spec fn entered(
    before: ChartScan,
    outcome: ChartOutcome,
    params: AnalyzeParams,
    after: ChartScan,
) -> bool {
    match outcome {
        ChartOutcome::NoAudio(e) => failed_scan(
            before,
            "audio_unavailable"@,
            "audio_unavailable: "@ + e@,
            after,
        ),
        ChartOutcome::Tried(ChartResult::NoEstimate(e)) => failed_scan(
            before,
            "bias_error"@,
            "bias_error: "@ + e@,
            after,
        ),
        ChartOutcome::Tried(ChartResult::Estimated(est, fault)) => {
            &&& after == (ChartScan {
                status: after.status,
                bias_ms: Some(est.bias_ms),
                confidence: Some(est.confidence),
                conv_quint: Some(est.conv_quint),
                conv_stdev: Some(est.conv_stdev),
                paradigm: after.paradigm,
                description: after.description,
                ..before
            })
            &&& after.status@ == "computed"@
            &&& text::option_view(after.paradigm) == Some(
                verdict(est.bias_ms, est.confidence, params),
            )
            &&& match fault {
                Some(e) => after.description@ == remarked(
                    before.description@,
                    "plot_error: "@ + e@,
                ),
                None => after.description == before.description,
            }
        },
    }
}

/// Enters what came of a chart.
pub fn enter_outcome(scan: &mut ChartScan, outcome: ChartOutcome, params: &AnalyzeParams)
    ensures
        entered(*old(scan), outcome, *params, *final(scan)),
{
    match outcome {
        ChartOutcome::NoAudio(e) => write_audio_error(scan, &e),
        ChartOutcome::Tried(ChartResult::NoEstimate(e)) => write_bias_error(scan, &e),
        ChartOutcome::Tried(ChartResult::Estimated(est, fault)) => {
            write_bias(scan, est, params);
            match fault {
                Some(e) => write_plot_error(scan, &e),
                None => {},
            }
        },
    }
}

/// The music of a chart, or nothing where there is no tag for it.
pub open spec fn tag_at(tags: Seq<String>, i: int) -> Seq<char> {
    if i < tags.len() {
        tags[i]@
    } else {
        ""@
    }
}

/// What the charts of a song are worked through with: `lookup` finds the file that a
/// tag names, `decode` decodes it, and `estimate` is told the index of a chart, its
/// tag and its audio.
pub struct ChartHost<R, D, E> {
    pub lookup: R,
    pub decode: D,
    pub estimate: E,
}

impl<
    R: Fn(&str) -> Option<SimPath>,
    D: Fn(&SimPath) -> Result<OggDecode, String>,
    E: Fn(usize, &str, &OggDecode) -> ChartResult,
> ChartHost<R, D, E> {
    /// Whether everything can be asked for of a song with so many charts.
    pub open spec fn ready(self, charts: int) -> bool {
        &&& forall|t: &str| #[trigger] call_requires(self.lookup, (t,))
        &&& forall|p: &SimPath| #[trigger] call_requires(self.decode, (p,))
        &&& forall|i: usize, t: &str, audio: &OggDecode|
            i < charts ==> #[trigger] call_requires(self.estimate, (i, t, audio))
    }

    /// Whether everything can be asked for of whatever a simfile is read and parsed as.
    pub open spec fn ready_for<
        F: Fn(&SimPath) -> Result<Vec<u8>, String>,
        A: Fn(&Vec<u8>, &str) -> Result<(SongSummary, Real), String>,
    >(self, path: SimPath, read: F, parse: A) -> bool {
        forall|data: Vec<u8>, ext: &str, parsed: Result<(SongSummary, Real), String>|
            call_ensures(read, (&path,), Ok::<Vec<u8>, String>(data)) && ext@ == path@.extension()
                && #[trigger] call_ensures(parse, (&data, ext), parsed) && parsed is Ok
                ==> self.ready(parsed->Ok_0.0.charts.len() as int)
    }

    /// Whether this comes of a chart: it has no audio, or is estimated from it.
    pub open spec fn comes(
        self,
        simfile: SimPath,
        i: usize,
        tag: Seq<char>,
        outcome: ChartOutcome,
    ) -> bool {
        exists|decoded: Result<OggDecode, String>| #[trigger]
            song::chart_decoded(simfile, tag, self.lookup, self.decode, decoded) && match decoded {
                Err(e) => outcome matches ChartOutcome::NoAudio(why) && why@ == e@,
                Ok(audio) => outcome matches ChartOutcome::Tried(result) && exists|t: &str|
                    #[trigger] call_ensures(self.estimate, (i, t, &audio), result) && t@ == tag,
            }
    }

    /// Whether `after` says of a chart what came of it.
    pub open spec fn worked(
        self,
        simfile: SimPath,
        i: usize,
        tag: Seq<char>,
        before: ChartScan,
        params: AnalyzeParams,
        after: ChartScan,
    ) -> bool {
        exists|outcome: ChartOutcome| #[trigger]
            self.comes(simfile, i, tag, outcome) && entered(before, outcome, params, after)
    }
}

/// What comes of one chart.
fn chart_outcome<
    R: Fn(&str) -> Option<SimPath>,
    D: Fn(&SimPath) -> Result<OggDecode, String>,
    E: Fn(usize, &str, &OggDecode) -> ChartResult,
>(
    host: &ChartHost<R, D, E>,
    simfile: &SimPath,
    i: usize,
    tag: &str,
    cache: &mut AudioCache,
) -> (outcome: ChartOutcome)
    requires
        host.ready(i + 1),
        old(cache).wf(),
        old(cache).filled(host.decode),
    ensures
        final(cache).wf(),
        final(cache).filled(host.decode),
        host.comes(*simfile, i, tag@, outcome),
{
    match decode_song_audio_cached(simfile, tag, cache, &host.lookup, &host.decode) {
        Err(e) => ChartOutcome::NoAudio(e),
        Ok(at) => match &cache.entries[at].decode {
            Err(e) => ChartOutcome::NoAudio(copy_of(e)),
            Ok(audio) => {
                let result: ChartResult = (host.estimate)(i, tag, audio);
                assert(call_ensures(host.estimate, (i, tag, audio), result));
                ChartOutcome::Tried(result)
            },
        },
    }
}

/// Works through the charts of a song, one after another, and enters what comes
/// of each.
pub fn apply_bias_estimates<
    R: Fn(&str) -> Option<SimPath>,
    D: Fn(&SimPath) -> Result<OggDecode, String>,
    E: Fn(usize, &str, &OggDecode) -> ChartResult,
>(
    simfile: &SimPath,
    charts: &mut Vec<ChartScan>,
    tags: &Vec<String>,
    params: &AnalyzeParams,
    host: &ChartHost<R, D, E>,
)
    requires
        host.ready(old(charts).len() as int),
    ensures
        final(charts).len() == old(charts).len(),
        forall|i: int|
            0 <= i < final(charts).len() ==> host.worked(
                *simfile,
                i as usize,
                tag_at(tags@, i),
                old(charts)@[i],
                *params,
                #[trigger] final(charts)@[i],
            ),
{
    let ghost start = charts@;
    let mut cache: AudioCache = AudioCache::new();
    let mut i: usize = 0;
    while i < charts.len()
        invariant
            i <= charts.len(),
            charts.len() == start.len(),
            host.ready(start.len() as int),
            cache.wf(),
            cache.filled(host.decode),
            forall|k: int|
                0 <= k < i ==> host.worked(
                    *simfile,
                    k as usize,
                    tag_at(tags@, k),
                    start[k],
                    *params,
                    #[trigger] charts@[k],
                ),
            forall|k: int| i <= k < charts.len() ==> #[trigger] charts@[k] == start[k],
        decreases charts.len() - i,
    {
        let tag: &str = if i < tags.len() {
            tags[i].as_str()
        } else {
            ""
        };
        let outcome: ChartOutcome = chart_outcome(host, simfile, i, tag, &mut cache);
        enter_outcome(&mut charts[i], outcome, params);
        assert(host.worked(
            *simfile,
            i,
            tag_at(tags@, i as int),
            start[i as int],
            *params,
            charts@[i as int],
        ));
        i += 1;
    }
}

// ---------------------------------------------------------------------------
// Simfiles and reports
// ---------------------------------------------------------------------------

/// A simfile of which nothing is said but why.
pub open spec fn failed_simfile(
    path: SimPath,
    rel: Seq<char>,
    md5: Seq<char>,
    why: Seq<char>,
    out: SimfileScan,
) -> bool {
    &&& out.simfile_path@ == path.text@
    &&& out.simfile_rel@ == rel
    &&& out.simfile_md5@ == md5
    &&& out.extension@ == path@.extension()
    &&& out.status@ == "error"@
    &&& text::option_view(out.error) == Some(why)
    &&& out.title is None
    &&& out.subtitle is None
    &&& out.artist is None
    &&& out.offset_seconds is None
    &&& out.music_tag is None
    &&& out.charts@.len() == 0
}

fn simfile_error(path: &SimPath, rel: &str, md5: &str, why: String) -> (out: SimfileScan)
    ensures
        failed_simfile(*path, rel@, md5@, why@, out),
{
    SimfileScan {
        simfile_path: copy_of(&path.text),
        simfile_rel: rel.to_owned(),
        simfile_md5: md5.to_owned(),
        extension: simfile_ext(path),
        status: "error".to_owned(),
        error: Some(why),
        title: None,
        subtitle: None,
        artist: None,
        offset_seconds: None,
        music_tag: None,
        charts: Vec::new(),
    }
}

/// A simfile that could not be read.
pub fn read_error(path: &SimPath, rel: &str, err: &str) -> (out: SimfileScan)
    ensures
        failed_simfile(*path, rel@, Seq::empty(), "read failed: "@ + err@, out),
{
    proof {
        reveal_strlit("");
        assert(""@ =~= Seq::<char>::empty());
    }
    simfile_error(path, rel, "", join2("read failed: ", err))
}

/// A simfile that could not be parsed.
pub fn parse_error(path: &SimPath, rel: &str, md5: &str, err: &str) -> (out: SimfileScan)
    ensures
        failed_simfile(*path, rel@, md5@, "rssp analyze failed: "@ + err@, out),
{
    simfile_error(path, rel, md5, join2("rssp analyze failed: ", err))
}

/// A simfile that was analyzed.
pub fn scanned_simfile(
    path: &SimPath,
    rel: &str,
    md5: &str,
    song: &SongSummary,
    offset_seconds: Real,
    charts: Vec<ChartScan>,
) -> (out: SimfileScan)
    ensures
        scanned_as(*path, rel@, md5@, *song, offset_seconds, out),
        out.charts == charts,
{
    SimfileScan {
        simfile_path: copy_of(&path.text),
        simfile_rel: rel.to_owned(),
        simfile_md5: md5.to_owned(),
        extension: simfile_ext(path),
        status: "scanned".to_owned(),
        error: None,
        title: Some(copy_of(&song.title)),
        subtitle: Some(copy_of(&song.subtitle)),
        artist: Some(copy_of(&song.artist)),
        offset_seconds: Some(offset_seconds),
        music_tag: Some(copy_of(&song.music_path)),
        charts,
    }
}

/// Whether a simfile says what it is known to say, with the charts as they stand.
pub open spec fn scanned_as(
    path: SimPath,
    rel: Seq<char>,
    md5: Seq<char>,
    song: SongSummary,
    offset_seconds: Real,
    out: SimfileScan,
) -> bool {
    &&& out.simfile_path@ == path.text@
    &&& out.simfile_rel@ == rel
    &&& out.simfile_md5@ == md5
    &&& out.extension@ == path@.extension()
    &&& out.status@ == "scanned"@
    &&& out.error is None
    &&& text::option_view(out.title) == Some(song.title@)
    &&& text::option_view(out.subtitle) == Some(song.subtitle@)
    &&& text::option_view(out.artist) == Some(song.artist@)
    &&& out.offset_seconds == Some(offset_seconds)
    &&& text::option_view(out.music_tag) == Some(song.music_path@)
}

/// Whether the charts of a song say what came of them: each with the music of the
/// song, if that has any.
pub open spec fn charts_worked<
    R: Fn(&str) -> Option<SimPath>,
    D: Fn(&SimPath) -> Result<OggDecode, String>,
    E: Fn(usize, &str, &OggDecode) -> ChartResult,
>(
    path: SimPath,
    song: SongSummary,
    params: AnalyzeParams,
    host: ChartHost<R, D, E>,
    charts: Seq<ChartScan>,
) -> bool {
    &&& charts.len() == song.charts.len()
    &&& forall|i: int|
        0 <= i < charts.len() ==> chart_worked(path, song, params, host, i, #[trigger] charts[i])
}

pub open spec fn chart_worked<
    R: Fn(&str) -> Option<SimPath>,
    D: Fn(&SimPath) -> Result<OggDecode, String>,
    E: Fn(usize, &str, &OggDecode) -> ChartResult,
>(
    path: SimPath,
    song: SongSummary,
    params: AnalyzeParams,
    host: ChartHost<R, D, E>,
    i: int,
    after: ChartScan,
) -> bool {
    exists|fresh: ChartScan, tagged: ChartScan|
        {
            &&& #[trigger] fresh_scan(song.charts@[i], i, fresh)
            &&& #[trigger] with_music(fresh, text::trimmed(song.music_path@), tagged)
            &&& host.worked(
                path,
                i as usize,
                text::trimmed(song.music_path@),
                tagged,
                params,
                after,
            )
        }
}

/// The charts of a song, worked through.
fn work_through<
    R: Fn(&str) -> Option<SimPath>,
    D: Fn(&SimPath) -> Result<OggDecode, String>,
    E: Fn(usize, &str, &OggDecode) -> ChartResult,
>(path: &SimPath, song: &SongSummary, params: &AnalyzeParams, host: &ChartHost<R, D, E>) -> (
charts: Vec<ChartScan>)
    requires
        host.ready(song.charts.len() as int),
    ensures
        charts_worked(*path, *song, *params, *host, charts@),
{
    let mut charts: Vec<ChartScan> = charts_from_summary(&song.charts);
    let tags: Vec<String> = chart_music_tags(song.charts.len(), &song.music_path);
    let ghost fresh = charts@;
    assign_chart_music(&mut charts, &tags);
    let ghost tagged = charts@;
    apply_bias_estimates(path, &mut charts, &tags, params, host);
    proof {
        assert forall|i: int| 0 <= i < charts.len() implies chart_worked(
            *path,
            *song,
            *params,
            *host,
            i,
            #[trigger] charts@[i],
        ) by {
            assert(fresh_scan(song.charts@[i], i, fresh[i]));
            assert(with_music(fresh[i], tags@[i]@, tagged[i]));
            assert(tag_at(tags@, i) == tags@[i]@);
            assert(host.worked(
                *path,
                i as usize,
                tag_at(tags@, i),
                tagged[i],
                *params,
                charts@[i],
            ));
        }
    }
    charts
}

/// What is said of a simfile that was read.
pub open spec fn parsed_as<
    A: Fn(&Vec<u8>, &str) -> Result<(SongSummary, Real), String>,
    R: Fn(&str) -> Option<SimPath>,
    D: Fn(&SimPath) -> Result<OggDecode, String>,
    E: Fn(usize, &str, &OggDecode) -> ChartResult,
>(
    path: SimPath,
    rel: Seq<char>,
    bytes: Vec<u8>,
    params: AnalyzeParams,
    parse: A,
    host: ChartHost<R, D, E>,
    out: SimfileScan,
) -> bool {
    let md5 = fs_scan::hex(fs_scan::md5_digest(bytes@));
    exists|ext: &str, parsed: Result<(SongSummary, Real), String>| #[trigger]
        call_ensures(parse, (&bytes, ext), parsed) && ext@ == path@.extension() && match parsed {
            Err(e) => failed_simfile(path, rel, md5, "rssp analyze failed: "@ + e@, out),
            Ok(pair) => scanned_as(path, rel, md5, pair.0, pair.1, out) && charts_worked(
                path,
                pair.0,
                params,
                host,
                out.charts@,
            ),
        }
}

/// What is said of a simfile.
pub open spec fn simfile_scanned<
    F: Fn(&SimPath) -> Result<Vec<u8>, String>,
    A: Fn(&Vec<u8>, &str) -> Result<(SongSummary, Real), String>,
    R: Fn(&str) -> Option<SimPath>,
    D: Fn(&SimPath) -> Result<OggDecode, String>,
    E: Fn(usize, &str, &OggDecode) -> ChartResult,
>(
    path: SimPath,
    root: PathView,
    params: AnalyzeParams,
    read: F,
    parse: A,
    host: ChartHost<R, D, E>,
    out: SimfileScan,
) -> bool {
    exists|bytes: Result<Vec<u8>, String>| #[trigger]
        call_ensures(read, (&path,), bytes) && match bytes {
            Err(e) => failed_simfile(
                path,
                path@.below(root),
                Seq::empty(),
                "read failed: "@ + e@,
                out,
            ),
            Ok(data) => parsed_as(path, path@.below(root), data, params, parse, host, out),
        }
}

/// Analyzes one simfile: it is read and parsed, and its charts are worked through.
pub fn scan_one<
    F: Fn(&SimPath) -> Result<Vec<u8>, String>,
    A: Fn(&Vec<u8>, &str) -> Result<(SongSummary, Real), String>,
    R: Fn(&str) -> Option<SimPath>,
    D: Fn(&SimPath) -> Result<OggDecode, String>,
    E: Fn(usize, &str, &OggDecode) -> ChartResult,
>(
    path: &SimPath,
    root: &SimPath,
    params: &AnalyzeParams,
    read: &F,
    parse: &A,
    host: &ChartHost<R, D, E>,
) -> (out: SimfileScan)
    requires
        path@.wf(),
        call_requires(read, (path,)),
        forall|bytes: &Vec<u8>, ext: &str| #[trigger] call_requires(parse, (bytes, ext)),
        host.ready_for(*path, *read, *parse),
    ensures
        simfile_scanned(*path, root@, *params, *read, *parse, *host, out),
{
    let rel: String = rel_path(root, path);
    let bytes: Result<Vec<u8>, String> = read(path);
    assert(call_ensures(read, (path,), bytes));
    match bytes {
        Err(e) => read_error(path, &rel, &e),
        Ok(data) => {
            let ext: String = simfile_ext(path);
            let digest: String = md5_hex(data.as_slice());
            let word: &str = ext.as_str();
            let parsed: Result<(SongSummary, Real), String> = parse(&data, word);
            assert(call_ensures(parse, (&data, word), parsed));
            match parsed {
                Err(e) => {
                    let out: SimfileScan = parse_error(path, &rel, &digest, &e);
                    assert(parsed_as(*path, rel@, data, *params, *parse, *host, out));
                    out
                },
                Ok(pair) => {
                    let charts: Vec<ChartScan> = work_through(path, &pair.0, params, host);
                    let out: SimfileScan = scanned_simfile(
                        path,
                        &rel,
                        &digest,
                        &pair.0,
                        pair.1,
                        charts,
                    );
                    assert(parsed_as(*path, rel@, data, *params, *parse, *host, out));
                    out
                },
            }
        },
    }
}

/// The report of an analysis.
pub fn analyze_report(version: &str, params: AnalyzeParams, simfiles: Vec<SimfileScan>) -> (out:
    AnalyzeReport)
    ensures
        out.tool@ == "null-or-die"@,
        out.version@ == version@,
        out.mode@ == "scan"@,
        out.params == params,
        out.simfile_count == simfiles.len(),
        out.simfiles == simfiles,
{
    AnalyzeReport {
        tool: TOOL_NAME.to_owned(),
        version: version.to_owned(),
        mode: "scan".to_owned(),
        params,
        simfile_count: simfiles.len(),
        simfiles,
    }
}

/// Whether this is said of the simfile at a path, whose charts are worked through with what
/// `host_of` gives for it.
pub open spec fn scans_path<
    F: Fn(&SimPath) -> Result<Vec<u8>, String>,
    A: Fn(&Vec<u8>, &str) -> Result<(SongSummary, Real), String>,
    R: Fn(&str) -> Option<SimPath>,
    D: Fn(&SimPath) -> Result<OggDecode, String>,
    E: Fn(usize, &str, &OggDecode) -> ChartResult,
    H: Fn(&SimPath) -> ChartHost<R, D, E>,
>(
    root: PathView,
    params: AnalyzeParams,
    read: F,
    parse: A,
    host_of: H,
    path: PathView,
    out: SimfileScan,
) -> bool {
    exists|p: SimPath, host: ChartHost<R, D, E>|
        {
            &&& p@ == path
            &&& #[trigger] call_ensures(host_of, (&p,), host)
            &&& simfile_scanned(p, root, params, read, parse, host, out)
        }
}

/// Whether every simfile is reported, in order.
pub open spec fn scans<
    F: Fn(&SimPath) -> Result<Vec<u8>, String>,
    A: Fn(&Vec<u8>, &str) -> Result<(SongSummary, Real), String>,
    R: Fn(&str) -> Option<SimPath>,
    D: Fn(&SimPath) -> Result<OggDecode, String>,
    E: Fn(usize, &str, &OggDecode) -> ChartResult,
    H: Fn(&SimPath) -> ChartHost<R, D, E>,
>(
    root: PathView,
    params: AnalyzeParams,
    read: F,
    parse: A,
    host_of: H,
    found: Seq<PathView>,
    out: Seq<SimfileScan>,
) -> bool {
    &&& out.len() == found.len()
    &&& forall|k: int|
        0 <= k < out.len() ==> scans_path(
            root,
            params,
            read,
            parse,
            host_of,
            found[k],
            #[trigger] out[k],
        )
}

/// Analyzes all simfiles at the root, of which a walk came across `entries`, and reports
/// what is said of each.
pub fn run<
    F: Fn(&SimPath) -> Result<Vec<u8>, String>,
    A: Fn(&Vec<u8>, &str) -> Result<(SongSummary, Real), String>,
    R: Fn(&str) -> Option<SimPath>,
    D: Fn(&SimPath) -> Result<OggDecode, String>,
    E: Fn(usize, &str, &OggDecode) -> ChartResult,
    H: Fn(&SimPath) -> ChartHost<R, D, E>,
>(
    version: &str,
    root: &SimPath,
    kind: RootKind,
    entries: &Vec<WalkEntry>,
    params: AnalyzeParams,
    read: &F,
    parse: &A,
    host_of: &H,
) -> (out: Result<AnalyzeReport, String>)
    requires
        root@.wf(),
        forall|i: int| 0 <= i < entries.len() ==> (#[trigger] entries@[i]).path@.wf(),
        forall|path: &SimPath| #[trigger] call_requires(read, (path,)),
        forall|bytes: &Vec<u8>, ext: &str| #[trigger] call_requires(parse, (bytes, ext)),
        forall|path: &SimPath| #[trigger] call_requires(host_of, (path,)),
        forall|path: &SimPath, host: ChartHost<R, D, E>| #[trigger]
            call_ensures(host_of, (path,), host) ==> host.ready_for(*path, *read, *parse),
    ensures
        match out {
            Err(e) => fs_scan::root_fault(root@, kind) == Some(e@),
            Ok(report) => {
                &&& fs_scan::root_fault(root@, kind) is None
                &&& report.tool@ == "null-or-die"@
                &&& report.version@ == version@
                &&& report.mode@ == "scan"@
                &&& report.params == params
                &&& report.simfile_count == report.simfiles.len()
                &&& exists|found: Seq<PathView>| #[trigger]
                    fs_scan::found_at(root@, kind, entries@, found) && scans(
                        root@,
                        params,
                        *read,
                        *parse,
                        *host_of,
                        found,
                        report.simfiles@,
                    )
            },
        },
{
    let found: Vec<SimPath> = match discover_simfiles(root, kind, entries) {
        Ok(found) => found,
        Err(e) => {
            return Err(e);
        },
    };
    let ghost listing = fs_scan::views(found@);
    proof {
        assert forall|i: int| 0 <= i < found.len() implies (#[trigger] found@[i])@.wf() by {
            assert(listing[i] == found@[i]@);
            fs_scan::found_is_wf(root@, kind, entries@, listing, i);
        }
    }
    let mut simfiles: Vec<SimfileScan> = Vec::new();
    let mut i: usize = 0;
    while i < found.len()
        invariant
            i <= found.len(),
            listing == fs_scan::views(found@),
            forall|i: int| 0 <= i < found.len() ==> (#[trigger] found@[i])@.wf(),
            forall|path: &SimPath| #[trigger] call_requires(read, (path,)),
            forall|bytes: &Vec<u8>, ext: &str| #[trigger] call_requires(parse, (bytes, ext)),
            forall|path: &SimPath| #[trigger] call_requires(host_of, (path,)),
            forall|path: &SimPath, host: ChartHost<R, D, E>| #[trigger]
                call_ensures(host_of, (path,), host) ==> host.ready_for(*path, *read, *parse),
            simfiles.len() == i,
            forall|k: int|
                0 <= k < i ==> scans_path(
                    root@,
                    params,
                    *read,
                    *parse,
                    *host_of,
                    listing[k],
                    #[trigger] simfiles@[k],
                ),
        decreases found.len() - i,
    {
        let path: &SimPath = &found[i];
        let host: ChartHost<R, D, E> = host_of(path);
        assert(call_ensures(host_of, (path,), host));
        let own: SimfileScan = scan_one(path, root, &params, read, parse, &host);
        assert(scans_path(root@, params, *read, *parse, *host_of, listing[i as int], own)) by {
            assert(listing[i as int] == found@[i as int]@);
        }
        simfiles.push(own);
        i += 1;
    }
    assert(scans(root@, params, *read, *parse, *host_of, listing, simfiles@));
    Ok(analyze_report(version, params, simfiles))
}

// ---------------------------------------------------------------------------
// Dumped traces
// ---------------------------------------------------------------------------

/// Where the traces of a simfile go: to the directory that is given, or to one of
/// their own beside the simfile, or in it where nothing stands above it.
#[derive(Debug, Clone, Copy, PartialEq, Eq, Structural)]
pub enum TracePlace {
    Given,
    BesideSimfile,
    InSimfile,
}

pub fn trace_place(ctl: &TraceCtl, simfile: &SimPath) -> (out: TracePlace)
    ensures
        out == (if ctl.dump_dir is Some {
            TracePlace::Given
        } else if simfile@.parented() {
            TracePlace::BesideSimfile
        } else {
            TracePlace::InSimfile
        }),
{
    if ctl.dump_dir.is_some() {
        TracePlace::Given
    } else if simfile.has_parent() {
        TracePlace::BesideSimfile
    } else {
        TracePlace::InSimfile
    }
}

/// A trace of one chart, with what it was made from.
pub struct AnalyzeTraceDump {
    pub simfile_path: String,
    pub chart_index: usize,
    pub steps_type: String,
    pub difficulty: String,
    pub description: String,
    pub music_tag: String,
    pub params: BiasCfg,
    pub kernel_target: &'static str,
    pub kernel_type: &'static str,
    pub estimate: BiasEstimate,
    pub trace: BiasTrace,
}

pub open spec fn target_name(target: KernelTarget) -> Seq<char> {
    match target {
        KernelTarget::Digest => "Digest"@,
        KernelTarget::Accumulator => "Accumulator"@,
    }
}

pub open spec fn kernel_name(kernel: BiasKernel) -> Seq<char> {
    match kernel {
        BiasKernel::Rising => "Rising"@,
        BiasKernel::Loudest => "Loudest"@,
    }
}

pub fn trace_dump(
    simfile: &SimPath,
    chart: &ChartInfo,
    chart_index: usize,
    music_tag: &str,
    params: &AnalyzeParams,
    estimate: BiasEstimate,
    trace: BiasTrace,
) -> (out: AnalyzeTraceDump)
    ensures
        out.simfile_path@ == simfile.text@,
        out.chart_index == chart_index,
        out.steps_type@ == chart.step_type@,
        out.difficulty@ == chart.difficulty@,
        out.description@ == chart.description@,
        out.music_tag@ == music_tag@,
        out.params.fingerprint_ms == params.fingerprint_ms,
        out.params.window_ms == params.window_ms,
        out.params.step_ms == params.step_ms,
        out.params.magic_offset_ms == params.magic_offset_ms,
        out.params.full_spectrogram == params.full_spectrogram,
        out.kernel_target@ == target_name(params.kernel_target),
        out.kernel_type@ == kernel_name(params.kernel_type),
        out.estimate == estimate,
        out.trace == trace,
{
    AnalyzeTraceDump {
        simfile_path: copy_of(&simfile.text),
        chart_index,
        steps_type: copy_of(&chart.step_type),
        difficulty: copy_of(&chart.difficulty),
        description: copy_of(&chart.description),
        music_tag: music_tag.to_owned(),
        params: bias_cfg_from_params(params),
        kernel_target: match params.kernel_target {
            KernelTarget::Digest => "Digest",
            KernelTarget::Accumulator => "Accumulator",
        },
        kernel_type: match params.kernel_type {
            BiasKernel::Rising => "Rising",
            BiasKernel::Loudest => "Loudest",
        },
        estimate,
        trace,
    }
}

// ---------------------------------------------------------------------------
// What is said
// ---------------------------------------------------------------------------

/// The words for targets and kernels, in any case of letters: a target is named by its name,
/// by its number, or, the accumulator, in short; a kernel by its name or its number. No other
/// word names any.
pub proof fn words_name_targets_and_kernels(word: Seq<char>)
    ensures
        kernel_target_of(word) == kernel_target_of(text::lower(word)),
        kernel_type_of(word) == kernel_type_of(text::lower(word)),
        kernel_target_of(word) == Some(KernelTarget::Digest) <==> text::lower(word) == "digest"@
            || text::lower(word) == "0"@,
        kernel_target_of(word) == Some(KernelTarget::Accumulator) <==> text::lower(word)
            == "accumulator"@ || text::lower(word) == "acc"@ || text::lower(word) == "1"@,
        kernel_type_of(word) == Some(BiasKernel::Rising) <==> text::lower(word) == "rising"@
            || text::lower(word) == "0"@,
        kernel_type_of(word) == Some(BiasKernel::Loudest) <==> text::lower(word) == "loudest"@
            || text::lower(word) == "1"@,
        kernel_target_of(target_name(KernelTarget::Digest)) == Some(KernelTarget::Digest),
        kernel_target_of(target_name(KernelTarget::Accumulator)) == Some(
            KernelTarget::Accumulator,
        ),
        kernel_type_of(kernel_name(BiasKernel::Rising)) == Some(BiasKernel::Rising),
        kernel_type_of(kernel_name(BiasKernel::Loudest)) == Some(BiasKernel::Loudest),
{
    assert(text::lower(text::lower(word)) =~= text::lower(word));
    reveal_strlit("0");
    reveal_strlit("1");
    reveal_strlit("digest");
    reveal_strlit("acc");
    reveal_strlit("accumulator");
    reveal_strlit("rising");
    reveal_strlit("loudest");
    reveal_strlit("Digest");
    reveal_strlit("Accumulator");
    reveal_strlit("Rising");
    reveal_strlit("Loudest");
    assert("0"@[0] == '0' && "1"@[0] == '1' && "digest"@[0] == 'd' && "acc"@[0] == 'a'
        && "accumulator"@[0] == 'a' && "rising"@[0] == 'r' && "loudest"@[0] == 'l');
    assert(text::lower("Digest"@) =~= "digest"@);
    assert(text::lower("Accumulator"@) =~= "accumulator"@);
    assert(text::lower("Rising"@) =~= "rising"@);
    assert(text::lower("Loudest"@) =~= "loudest"@);
}

/// An analysis is refused just where the paradigm that is asked for is neither of the two, or
/// the target or the kernel has no name that is known.
pub proof fn analyses_are_refused_for_what_they_ask(args: AnalyzeArgs)
    ensures
        args_fault(args) is None <==> {
            &&& args.to_paradigm is None || args.to_paradigm->Some_0@ == "null"@
                || args.to_paradigm->Some_0@ == "+9ms"@
            &&& kernel_target_of(args.kernel_target@) is Some
            &&& kernel_type_of(args.kernel_type@) is Some
        },
        args_fault(args) matches Some(why) ==> {
            ||| args.to_paradigm is Some && text::ends_with(why, args.to_paradigm->Some_0@)
            ||| text::ends_with(why, args.kernel_target@)
            ||| text::ends_with(why, args.kernel_type@)
        },
{
    if args.to_paradigm is Some {
        text::parts_are_found_where_they_stand(
            "invalid paradigm: "@,
            args.to_paradigm->Some_0@,
            Seq::empty(),
            Seq::empty(),
        );
    }
    text::parts_are_found_where_they_stand(
        "invalid kernel target: "@,
        args.kernel_target@,
        Seq::empty(),
        Seq::empty(),
    );
    text::parts_are_found_where_they_stand(
        "invalid kernel type: "@,
        args.kernel_type@,
        Seq::empty(),
        Seq::empty(),
    );
}

/// An estimate speaks for null just where it is sure enough, null comes into question, and
/// its bias lies less than the tolerance from zero; for +9ms where it is sure enough, +9ms
/// comes into question, it does not speak for null, and its bias lies between the bounds of
/// nine. A paradigm comes into question where it is asked for, or, where none is, where it is
/// considered.
pub proof fn verdicts_follow_the_bias(bias_ms: Real, confidence: Real, params: AnalyzeParams)
    ensures
        ({
            let found = verdict(bias_ms, confidence, params);
            let asked = text::option_view(params.to_paradigm);
            let null = asked == Some("null"@) || (asked != Some("+9ms"@) && params.consider_null);
            let p9 = asked == Some("+9ms"@) || (asked != Some("null"@) && params.consider_p9ms);
            let sure = !confidence.less(params.confidence_limit);
            let band = params.tolerance;
            &&& found == "null"@ <==> sure && null && bias_ms.absolute().less(band.tolerance)
            &&& found == "+9ms"@ <==> sure && p9 && found != "null"@ && band.nine_less.less(
                bias_ms,
            ) && bias_ms.less(band.nine_more)
            &&& found == "????"@ <==> found != "null"@ && found != "+9ms"@
        }),
{
    reveal_strlit("null");
    reveal_strlit("+9ms");
    reveal_strlit("????");
    assert("null"@[0] == 'n' && "+9ms"@[0] == '+' && "????"@[0] == '?');
}

/// A chart has the music that it names itself, and that of its song where it names none;
/// white space round a name does not count, and a name of white space alone is none.
pub proof fn music_is_named_by_the_chart_or_the_song(own: Seq<char>, song: Seq<char>)
    ensures
        text::trimmed(own).len() > 0 ==> music_tag_of(Some(own), song) == text::trimmed(own),
        text::trimmed(own).len() == 0 ==> music_tag_of(Some(own), song) == music_tag_of(None, song),
        music_tag_of(None, song) == text::trimmed(song),
        music_tag_of(Some(text::trimmed(own)), song) == music_tag_of(Some(own), song),
{
    text::only_white_ends_are_trimmed(own);
}

/// A remark stands in brackets at the end, and the description before it stays as it is; an
/// empty one leaves nothing.
pub proof fn remarks_stand_behind_descriptions(description: Seq<char>, remark: Seq<char>)
    ensures
        text::ends_with(remarked(description, remark), "["@ + remark + "]"@),
        text::trimmed(description).len() > 0 ==> remarked(description, remark).take(
            description.len() as int,
        ) == description && remarked(description, remark).len() == description.len() + remark.len()
            + 3,
        text::trimmed(description).len() == 0 ==> remarked(description, remark).len()
            == remark.len() + 2,
{
    reveal_strlit("[");
    reveal_strlit("]");
    reveal_strlit(" [");
    assert("["@ =~= seq!['[']);
    assert("]"@ =~= seq![']']);
    assert(" ["@ =~= seq![' ', '[']);
    let out = remarked(description, remark);
    let mark = "["@ + remark + "]"@;
    assert(out.skip(out.len() - mark.len()) =~= mark);
    if text::trimmed(description).len() > 0 {
        assert(out.take(description.len() as int) =~= description);
    }
}

/// What came of a chart can be told from what is entered: a chart without audio, one that
/// could not be estimated and one that was each have a status of their own, the first two
/// have no bias and no paradigm, and the last has the bias and the confidence that were
/// found. What a chart is stays as it was.
pub proof fn outcomes_are_told_apart(
    before: ChartScan,
    outcome: ChartOutcome,
    params: AnalyzeParams,
    after: ChartScan,
)
    requires
        entered(before, outcome, params, after),
    ensures
        after.chart_index == before.chart_index,
        after.steps_type == before.steps_type,
        after.difficulty == before.difficulty,
        after.music_tag == before.music_tag,
        after.slot_null == before.slot_null,
        after.slot_p9ms == before.slot_p9ms,
        after.status@ == "computed"@ <==> outcome matches ChartOutcome::Tried(
            ChartResult::Estimated(..),
        ),
        after.status@ == "audio_unavailable"@ <==> outcome is NoAudio,
        after.status@ == "bias_error"@ <==> outcome matches ChartOutcome::Tried(
            ChartResult::NoEstimate(_),
        ),
        outcome matches ChartOutcome::Tried(ChartResult::Estimated(est, _)) ==> {
            &&& after.bias_ms == Some(est.bias_ms)
            &&& after.confidence == Some(est.confidence)
            &&& after.conv_quint == Some(est.conv_quint)
            &&& after.conv_stdev == Some(est.conv_stdev)
            &&& text::option_view(after.paradigm) == Some(
                verdict(est.bias_ms, est.confidence, params),
            )
        },
        after.status@ != "computed"@ ==> {
            &&& after.bias_ms == before.bias_ms
            &&& after.confidence == before.confidence
            &&& text::option_view(after.paradigm) == Some("????"@)
        },
        outcome matches ChartOutcome::NoAudio(e) ==> text::ends_with(
            after.description@,
            "[audio_unavailable: "@ + e@ + "]"@,
        ),
        outcome matches ChartOutcome::Tried(ChartResult::NoEstimate(e)) ==> text::ends_with(
            after.description@,
            "[bias_error: "@ + e@ + "]"@,
        ),
        outcome matches ChartOutcome::Tried(ChartResult::Estimated(_, Some(e)))
            ==> text::ends_with(after.description@, "[plot_error: "@ + e@ + "]"@),
        outcome matches ChartOutcome::Tried(ChartResult::Estimated(_, None))
            ==> after.description@ == before.description@,
{
    reveal_strlit("computed");
    reveal_strlit("audio_unavailable");
    reveal_strlit("bias_error");
    assert("computed"@[0] == 'c' && "audio_unavailable"@[0] == 'a' && "bias_error"@[0] == 'b');
    match outcome {
        ChartOutcome::NoAudio(e) => {
            reveal_strlit("[");
            reveal_strlit("audio_unavailable: ");
            reveal_strlit("[audio_unavailable: ");
            remarks_stand_behind_descriptions(before.description@, "audio_unavailable: "@ + e@);
            assert("["@ + ("audio_unavailable: "@ + e@) + "]"@ =~= "[audio_unavailable: "@ + e@
                + "]"@);
        },
        ChartOutcome::Tried(ChartResult::NoEstimate(e)) => {
            reveal_strlit("[");
            reveal_strlit("bias_error: ");
            reveal_strlit("[bias_error: ");
            remarks_stand_behind_descriptions(before.description@, "bias_error: "@ + e@);
            assert("["@ + ("bias_error: "@ + e@) + "]"@ =~= "[bias_error: "@ + e@ + "]"@);
        },
        ChartOutcome::Tried(ChartResult::Estimated(_, Some(e))) => {
            reveal_strlit("[");
            reveal_strlit("plot_error: ");
            reveal_strlit("[plot_error: ");
            remarks_stand_behind_descriptions(before.description@, "plot_error: "@ + e@);
            assert("["@ + ("plot_error: "@ + e@) + "]"@ =~= "[plot_error: "@ + e@ + "]"@);
        },
        _ => {},
    }
}

/// A chart starts out as what its simfile says of it, under its slots in both paradigms and
/// with the music of the song, if that has any; nothing is known of its bias.
pub proof fn charts_start_as_they_are_written(
    chart: ChartInfo,
    i: int,
    tag: Seq<char>,
    fresh: ChartScan,
    tagged: ChartScan,
)
    requires
        fresh_scan(chart, i, fresh),
        with_music(fresh, tag, tagged),
    ensures
        tagged.chart_index == i,
        tagged.steps_type@ == chart.step_type@,
        tagged.difficulty@ == chart.difficulty@,
        tagged.description@ == chart.description@,
        tagged.chart_has_own_timing == chart.has_own_timing,
        tagged.slot_null@ == compat::abbreviation(
            chart.step_type@,
            chart.difficulty@,
            i as nat,
            "null"@,
        ),
        tagged.slot_p9ms@ == compat::abbreviation(
            chart.step_type@,
            chart.difficulty@,
            i as nat,
            "+9ms"@,
        ),
        tagged.music_tag is None <==> text::trimmed(tag).len() == 0,
        tagged.music_tag is Some ==> tagged.music_tag->Some_0@ == text::trimmed(tag),
        tagged.status@ == "stub"@,
        tagged.bias_ms is None && tagged.confidence is None && tagged.paradigm is None,
        tagged.conv_quint is None && tagged.conv_stdev is None,
{
}

/// Each chart of a song has a place of its own in what is said of the song: what stands there
/// is of that chart, has the music of the song, and says what came of the chart in that music.
pub proof fn charts_are_worked_in_their_places<
    R: Fn(&str) -> Option<SimPath>,
    D: Fn(&SimPath) -> Result<OggDecode, String>,
    E: Fn(usize, &str, &OggDecode) -> ChartResult,
>(
    path: SimPath,
    song: SongSummary,
    params: AnalyzeParams,
    host: ChartHost<R, D, E>,
    charts: Seq<ChartScan>,
    i: int,
) -> (outcome: ChartOutcome)
    requires
        charts_worked(path, song, params, host, charts),
        0 <= i < song.charts.len(),
    ensures
        charts.len() == song.charts.len(),
        charts[i].chart_index == i,
        charts[i].steps_type@ == song.charts@[i].step_type@,
        charts[i].difficulty@ == song.charts@[i].difficulty@,
        charts[i].chart_has_own_timing == song.charts@[i].has_own_timing,
        charts[i].music_tag is None <==> text::trimmed(song.music_path@).len() == 0,
        charts[i].music_tag is Some ==> charts[i].music_tag->Some_0@ == text::trimmed(
            song.music_path@,
        ),
        host.comes(path, i as usize, text::trimmed(song.music_path@), outcome),
        outcome matches ChartOutcome::Tried(ChartResult::Estimated(est, _)) ==> charts[i].bias_ms
            == Some(est.bias_ms) && charts[i].confidence == Some(est.confidence)
            && charts[i].status@ == "computed"@,
        !(outcome matches ChartOutcome::Tried(ChartResult::Estimated(..))) ==> charts[i].bias_ms
            is None && charts[i].confidence is None,
{
    let after = charts[i];
    let tag = text::trimmed(song.music_path@);
    assert(chart_worked(path, song, params, host, i, charts[i]));
    let (fresh, tagged) = choose|fresh: ChartScan, tagged: ChartScan|
        {
            &&& #[trigger] fresh_scan(song.charts@[i], i, fresh)
            &&& #[trigger] with_music(fresh, tag, tagged)
            &&& host.worked(path, i as usize, tag, tagged, params, after)
        };
    let outcome = choose|outcome: ChartOutcome| #[trigger]
        host.comes(path, i as usize, tag, outcome) && entered(tagged, outcome, params, after);
    charts_start_as_they_are_written(song.charts@[i], i, tag, fresh, tagged);
    text::only_white_ends_are_trimmed(song.music_path@);
    outcome
}

/// What comes of a chart is estimated in the audio of its music, or says why there is none.
pub proof fn charts_come_of_their_audio<
    R: Fn(&str) -> Option<SimPath>,
    D: Fn(&SimPath) -> Result<OggDecode, String>,
    E: Fn(usize, &str, &OggDecode) -> ChartResult,
>(
    host: ChartHost<R, D, E>,
    simfile: SimPath,
    i: usize,
    tag: Seq<char>,
    outcome: ChartOutcome,
) -> (decoded: Result<OggDecode, String>)
    requires
        host.comes(simfile, i, tag, outcome),
    ensures
        song::chart_decoded(simfile, tag, host.lookup, host.decode, decoded),
        outcome is NoAudio <==> decoded is Err,
        outcome is NoAudio ==> outcome->NoAudio_0@ == decoded->Err_0@,
        outcome is Tried ==> exists|t: &str| #[trigger]
            call_ensures(host.estimate, (i, t, &decoded->Ok_0), outcome->Tried_0) && t@ == tag,
{
    choose|decoded: Result<OggDecode, String>| #[trigger]
        song::chart_decoded(simfile, tag, host.lookup, host.decode, decoded) && match decoded {
            Err(e) => outcome matches ChartOutcome::NoAudio(why) && why@ == e@,
            Ok(audio) => outcome matches ChartOutcome::Tried(result) && exists|t: &str| #[trigger]
                call_ensures(host.estimate, (i, t, &audio), result) && t@ == tag,
        }
}

/// What is said of a simfile names the simfile. It has an error just where it has no charts
/// and no song to tell of; a simfile that could not be read has no digest, and any other that
/// of its bytes.
pub proof fn simfiles_are_told_as_what_they_are<
    F: Fn(&SimPath) -> Result<Vec<u8>, String>,
    A: Fn(&Vec<u8>, &str) -> Result<(SongSummary, Real), String>,
    R: Fn(&str) -> Option<SimPath>,
    D: Fn(&SimPath) -> Result<OggDecode, String>,
    E: Fn(usize, &str, &OggDecode) -> ChartResult,
>(
    path: SimPath,
    root: PathView,
    params: AnalyzeParams,
    read: F,
    parse: A,
    host: ChartHost<R, D, E>,
    out: SimfileScan,
) -> (of: (Result<Vec<u8>, String>, Result<(SongSummary, Real), String>))
    requires
        simfile_scanned(path, root, params, read, parse, host, out),
    ensures
        out.simfile_path@ == path.text@,
        out.simfile_rel@ == path@.below(root),
        out.extension@ == path@.extension(),
        call_ensures(read, (&path,), of.0),
        of.0 is Ok ==> exists|ext: &str| #[trigger]
            call_ensures(parse, (&of.0->Ok_0, ext), of.1) && ext@ == path@.extension(),
        of.0 is Err ==> out.simfile_md5@.len() == 0 && text::option_view(out.error) == Some(
            "read failed: "@ + of.0->Err_0@,
        ),
        of.0 is Ok ==> out.simfile_md5@ == fs_scan::hex(fs_scan::md5_digest(of.0->Ok_0@)),
        of.0 is Ok && of.1 is Err ==> text::option_view(out.error) == Some(
            "rssp analyze failed: "@ + of.1->Err_0@,
        ),
        out.error is None <==> of.0 is Ok && of.1 is Ok,
        out.error is Some <==> out.status@ == "error"@,
        out.error is None <==> out.status@ == "scanned"@,
        out.error is Some ==> out.charts.len() == 0 && out.title is None && out.subtitle is None
            && out.artist is None && out.offset_seconds is None && out.music_tag is None,
        out.error is None ==> {
            let song = of.1->Ok_0.0;
            &&& charts_worked(path, song, params, host, out.charts@)
            &&& out.offset_seconds == Some(of.1->Ok_0.1)
            &&& text::option_view(out.title) == Some(song.title@)
            &&& text::option_view(out.subtitle) == Some(song.subtitle@)
            &&& text::option_view(out.artist) == Some(song.artist@)
            &&& text::option_view(out.music_tag) == Some(song.music_path@)
        },
{
    let bytes = choose|bytes: Result<Vec<u8>, String>| #[trigger]
        call_ensures(read, (&path,), bytes) && match bytes {
            Err(e) => failed_simfile(
                path,
                path@.below(root),
                Seq::empty(),
                "read failed: "@ + e@,
                out,
            ),
            Ok(data) => parsed_as(path, path@.below(root), data, params, parse, host, out),
        };
    reveal_strlit("error");
    reveal_strlit("scanned");
    assert("error"@ != "scanned"@) by {
        assert("error"@.len() != "scanned"@.len());
    }
    match bytes {
        Err(_) => (bytes, Err(out.error->Some_0)),
        Ok(data) => {
            let md5 = fs_scan::hex(fs_scan::md5_digest(data@));
            let rel = path@.below(root);
            let (ext, parsed) = choose|ext: &str, parsed: Result<(SongSummary, Real), String>|
                #[trigger] call_ensures(parse, (&data, ext), parsed) && ext@ == path@.extension()
                    && match parsed {
                    Err(e) => failed_simfile(path, rel, md5, "rssp analyze failed: "@ + e@, out),
                    Ok(pair) => scanned_as(path, rel, md5, pair.0, pair.1, out) && charts_worked(
                        path,
                        pair.0,
                        params,
                        host,
                        out.charts@,
                    ),
                };
            assert(call_ensures(parse, (&data, ext), parsed));
            (bytes, parsed)
        },
    }
}

/// An analysis of a chart starts with what its mode asks for and ends with what the first step
/// that fails tells. An estimate that was kept stands whatever becomes of its trace, and a
/// trace is stored just where one was made.
pub proof fn estimates_outlast_their_traces(
    mode: ChartMode,
    event: ChartEvent,
    est: BiasEstimate,
    fault: Option<String>,
)
    ensures
        chart_start(ChartMode::Plain) is Estimate,
        chart_start(ChartMode::Traced) == (ChartStep::Trace { kept: None }),
        chart_start(ChartMode::Plotted) is Plot,
        chart_start(ChartMode::PlottedAndTraced) is Plot,
        event matches ChartEvent::Estimated(Ok(found)) ==> chart_next(
            mode,
            ChartStep::Estimate,
            event,
        ) == ChartStep::Finished(ChartResult::Estimated(found, None)),
        event matches ChartEvent::Estimated(Err(e)) ==> chart_next(mode, ChartStep::Estimate, event)
            == ChartStep::Finished(ChartResult::NoEstimate(e)),
        event matches ChartEvent::Plotted(Ok(v)) ==> chart_next(mode, ChartStep::Plot, event)
            == ChartStep::Draw(v),
        event matches ChartEvent::Plotted(Err(e)) ==> chart_next(mode, ChartStep::Plot, event)
            == ChartStep::Finished(ChartResult::NoEstimate(e)),
        event matches ChartEvent::Traced(Err(e)) ==> chart_next(
            mode,
            ChartStep::Trace { kept: None },
            event,
        ) == ChartStep::Finished(ChartResult::NoEstimate(e)),
        event matches ChartEvent::Traced(Err(_)) ==> chart_next(
            mode,
            ChartStep::Trace { kept: Some((est, fault)) },
            event,
        ) == ChartStep::Finished(ChartResult::Estimated(est, fault)),
        event matches ChartEvent::Traced(Ok(pair)) ==> {
            &&& chart_next(mode, ChartStep::Trace { kept: None }, event) == (ChartStep::Dump {
                est: pair.0,
                trace: pair.1,
                kept: (pair.0, None),
            })
            &&& chart_next(mode, ChartStep::Trace { kept: Some((est, fault)) }, event) == (
            ChartStep::Dump { est: pair.0, trace: pair.1, kept: (est, fault) })
        },
{
}

/// An estimate that is drawn stands whether or not its plot could be stored; a plot that could
/// not be leaves a remark. It is traced just where that is asked for, and the trace leaves both
/// as they are.
pub proof fn estimates_outlast_their_plots(
    mode: ChartMode,
    v: BiasEstimateWithPlot,
    done: Result<(), String>,
    stored: ChartEvent,
    trace: BiasTrace,
    est: BiasEstimate,
    kept: (BiasEstimate, Option<String>),
)
    requires
        stored is Dumped,
    ensures
        ({
            let fault = if done is Ok {
                None
            } else {
                Some(done->Err_0)
            };
            chart_next(mode, ChartStep::Draw(v), ChartEvent::Drawn(done)) == (if mode
                == ChartMode::PlottedAndTraced {
                ChartStep::Trace { kept: Some((v.estimate, fault)) }
            } else {
                ChartStep::Finished(ChartResult::Estimated(v.estimate, fault))
            })
        }),
        chart_next(mode, ChartStep::Dump { est, trace, kept }, stored) == ChartStep::Finished(
            ChartResult::Estimated(kept.0, kept.1),
        ),
{
}

/// Every simfile that was found is reported at its place, by its own name below the root.
pub proof fn simfiles_are_reported_in_order<
    F: Fn(&SimPath) -> Result<Vec<u8>, String>,
    A: Fn(&Vec<u8>, &str) -> Result<(SongSummary, Real), String>,
    R: Fn(&str) -> Option<SimPath>,
    D: Fn(&SimPath) -> Result<OggDecode, String>,
    E: Fn(usize, &str, &OggDecode) -> ChartResult,
    H: Fn(&SimPath) -> ChartHost<R, D, E>,
>(
    root: PathView,
    params: AnalyzeParams,
    read: F,
    parse: A,
    host_of: H,
    found: Seq<PathView>,
    out: Seq<SimfileScan>,
    k: int,
) -> (of: (SimPath, ChartHost<R, D, E>))
    requires
        scans(root, params, read, parse, host_of, found, out),
        0 <= k < found.len(),
    ensures
        out.len() == found.len(),
        of.0@ == found[k],
        call_ensures(host_of, (&of.0,), of.1),
        simfile_scanned(of.0, root, params, read, parse, of.1, out[k]),
        out[k].simfile_rel@ == found[k].below(root),
        out[k].extension@ == found[k].extension(),
{
    assert(scans_path(root, params, read, parse, host_of, found[k], out[k]));
    let (p, host) = choose|p: SimPath, host: ChartHost<R, D, E>|
        {
            &&& p@ == found[k]
            &&& #[trigger] call_ensures(host_of, (&p,), host)
            &&& simfile_scanned(p, root, params, read, parse, host, out[k])
        };
    simfiles_are_told_as_what_they_are(p, root, params, read, parse, host, out[k]);
    (p, host)
}

} // verus!
