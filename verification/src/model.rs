//! The records that the library fills and reads.

use crate::compat::ToleranceBand;
use crate::number::Real;
use vstd::prelude::*;

verus! {

/// What the bias kernel is run over: the beat digest or the accumulated spectrum.
#[derive(Debug, Clone, Copy, PartialEq, Eq, Structural)]
pub enum KernelTarget {
    Digest,
    Accumulator,
}

/// The shape of the bias kernel.
#[derive(Debug, Clone, Copy, PartialEq, Eq, Structural)]
pub enum BiasKernel {
    Rising,
    Loudest,
}

/// The direction in which time runs in a graph: along the columns of a vertical
/// one, up the rows of a horizontal one.
#[derive(Debug, Clone, Copy, PartialEq, Eq, Structural)]
pub enum GraphOrientation {
    Vertical,
    Horizontal,
}

/// The settings of an analysis.
#[derive(Debug, Clone)]
pub struct AnalyzeParams {
    pub root_path: String,
    pub report_path: String,
    pub consider_null: bool,
    pub consider_p9ms: bool,
    pub tolerance: ToleranceBand,
    pub confidence_limit: Real,
    pub fingerprint_ms: Real,
    pub window_ms: Real,
    pub step_ms: Real,
    pub magic_offset_ms: Real,
    pub kernel_target: KernelTarget,
    pub kernel_type: BiasKernel,
    pub full_spectrogram: bool,
    pub to_paradigm: Option<String>,
}

/// The settings of a bias estimate.
#[derive(Debug, Clone, Copy, PartialEq, Eq, Structural)]
pub struct BiasCfg {
    pub fingerprint_ms: Real,
    pub window_ms: Real,
    pub step_ms: Real,
    pub magic_offset_ms: Real,
    pub kernel_target: KernelTarget,
    pub kernel_type: BiasKernel,
    pub full_spectrogram: bool,
}

/// What an estimate found.
#[derive(Debug, Clone, Copy, PartialEq, Eq, Structural)]
pub struct BiasEstimate {
    pub bias_ms: Real,
    pub confidence: Real,
    pub conv_quint: Real,
    pub conv_stdev: Real,
}

/// What the analysis has to say of one chart.
#[derive(Debug, Clone)]
pub struct ChartScan {
    pub chart_index: usize,
    pub steps_type: String,
    pub difficulty: String,
    pub description: String,
    pub music_tag: Option<String>,
    pub slot_null: String,
    pub slot_p9ms: String,
    pub chart_has_own_timing: bool,
    pub status: String,
    pub bias_ms: Option<Real>,
    pub confidence: Option<Real>,
    pub conv_quint: Option<Real>,
    pub conv_stdev: Option<Real>,
    pub paradigm: Option<String>,
}

/// What the analysis has to say of one simfile.
#[derive(Debug, Clone)]
pub struct SimfileScan {
    pub simfile_path: String,
    pub simfile_rel: String,
    pub simfile_md5: String,
    pub extension: String,
    pub status: String,
    pub error: Option<String>,
    pub title: Option<String>,
    pub subtitle: Option<String>,
    pub artist: Option<String>,
    pub offset_seconds: Option<Real>,
    pub music_tag: Option<String>,
    pub charts: Vec<ChartScan>,
}

/// The report of an analysis.
#[derive(Debug, Clone)]
pub struct AnalyzeReport {
    pub tool: String,
    pub version: String,
    pub mode: String,
    pub params: AnalyzeParams,
    pub simfile_count: usize,
    pub simfiles: Vec<SimfileScan>,
}

/// How one simfile fared against its baseline.
#[derive(Debug, Clone)]
pub struct ParityCase {
    pub simfile_rel: String,
    pub simfile_md5: String,
    pub baseline_rel: Option<String>,
    pub status: String,
    pub error: Option<String>,
}

/// The report of a parity run.
#[derive(Debug, Clone)]
pub struct ParityReport {
    pub tool: String,
    pub version: String,
    pub mode: String,
    pub root_path: String,
    pub baseline_path: String,
    pub total_simfiles: usize,
    pub matched: usize,
    pub mismatched: usize,
    pub missing_baseline: usize,
    pub invalid_baseline: usize,
    pub read_errors: usize,
    pub cases: Vec<ParityCase>,
}

/// How one simfile fared in the harness.
#[derive(Debug, Clone)]
pub struct HarnessCase {
    pub simfile_rel: String,
    pub simfile_md5: String,
    pub baseline_rel: String,
    pub status: String,
    pub error: Option<String>,
}

/// The report of a harness run.
#[derive(Debug, Clone)]
pub struct HarnessReport {
    pub tool: String,
    pub version: String,
    pub mode: String,
    pub root_path: String,
    pub baseline_path: String,
    pub python_bin: String,
    pub source_root: Option<String>,
    pub scratch_path: String,
    pub total_simfiles: usize,
    pub written: usize,
    pub skipped_existing: usize,
    pub failed: usize,
    pub cases: Vec<HarnessCase>,
}

/// The report of a plot.
#[derive(Debug, Clone)]
pub struct PlotReport {
    pub tool: String,
    pub version: String,
    pub input_json: String,
    pub output_png: String,
    pub width: u32,
    pub height: u32,
    pub span_ms: Real,
    pub bias_count: usize,
}

/// What a program left behind that was run to its end.
#[derive(Debug, Clone)]
pub struct ProcessOutput {
    pub success: bool,
    pub code: Option<i32>,
    pub stdout: Vec<u8>,
    pub stderr: String,
}

} // verus!
