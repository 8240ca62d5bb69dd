//! Simfiles and the baselines that stand for them.

use crate::audio::OggDecode;
use crate::codec;
use crate::codec::zstd_decode;
use crate::fs_scan;
use crate::fs_scan::{
    baseline_rel_for_md5, discover_simfiles, md5_hex, shard_of, RootKind, WalkEntry,
};
use crate::model::{BiasEstimate, ParityCase, ParityReport};
use crate::number;
use crate::number::Real;
use crate::numeric::{Meaning, Numerics, Place, Term};
use crate::paths::{has_ext, rel_path, PathView, SimPath};
use crate::song;
use crate::song::{check_chart_index, resolve_song_audio_path, SongSummary};
use crate::text;
use crate::text::{copy_of, decimal_text, join2, join3, join4, same_text, trim};
use vstd::prelude::*;

verus! {

/// What a parity run is asked for.
#[derive(Debug, Clone)]
pub struct ParityCmd {
    pub root_path: SimPath,
    pub baseline_path: SimPath,
    pub output: Option<String>,
    pub fail_on_missing: bool,
    pub fail_on_mismatch: bool,
}

// ---------------------------------------------------------------------------
// Baselines
// ---------------------------------------------------------------------------

/// Where the baseline of a digest can stand below the baseline directory: plain,
/// or compressed.
pub fn baseline_candidates(md5: &str) -> (out: (String, String))
    ensures
        out.0@ == fs_scan::shard(md5@) + "/"@ + md5@ + ".json"@,
        out.1@ == fs_scan::shard(md5@) + "/"@ + md5@ + ".json.zst"@,
{
    let shard: String = shard_of(md5);
    (join4(&shard, "/", md5, ".json"), join4(&shard, "/", md5, ".json.zst"))
}

/// What a baseline file holds once it was read: its bytes, decompressed where its
/// name says so.
pub open spec fn baseline_bytes(
    path: PathView,
    raw: Result<Vec<u8>, String>,
    out: Result<Vec<u8>, String>,
) -> bool {
    match raw {
        Err(e) => out is Err && out->Err_0@ == "read baseline "@ + path.text + " failed: "@ + e@,
        Ok(bytes) => if path.with_ext("zst"@) {
            match codec::zstd_decoded(bytes@) {
                Some(data) => out is Ok && out->Ok_0@ == data,
                None => out is Err && exists|why: Seq<char>|
                    out->Err_0@ == "zstd decode "@ + path.text + " failed: "@ + why,
            }
        } else {
            out is Ok && out->Ok_0@ == bytes@
        },
    }
}

pub fn read_baseline(path: &SimPath, raw: Result<Vec<u8>, String>) -> (out: Result<Vec<u8>, String>)
    ensures
        baseline_bytes(path@, raw, out),
{
    match raw {
        Err(e) => Err(join4("read baseline ", &path.text, " failed: ", &e)),
        Ok(bytes) => {
            if has_ext(path, "zst") {
                match zstd_decode(&bytes) {
                    Ok(data) => Ok(data),
                    Err(why) => {
                        let e: String = join4("zstd decode ", &path.text, " failed: ", &why);
                        assert(e@ == "zstd decode "@ + path@.text + " failed: "@ + why@);
                        Err(e)
                    },
                }
            } else {
                Ok(bytes)
            }
        },
    }
}

/// A case, field by field.
pub open spec fn case_is(
    case: ParityCase,
    rel: Seq<char>,
    md5: Seq<char>,
    baseline: Option<Seq<char>>,
    status: Seq<char>,
    error: Option<Seq<char>>,
) -> bool {
    &&& case.simfile_rel@ == rel
    &&& case.simfile_md5@ == md5
    &&& text::option_view(case.baseline_rel) == baseline
    &&& case.status@ == status
    &&& text::option_view(case.error) == error
}

fn parity_case(
    rel: &str,
    md5: &str,
    baseline: Option<String>,
    status: &str,
    error: Option<String>,
) -> (case: ParityCase)
    ensures
        case_is(
            case,
            rel@,
            md5@,
            text::option_view(baseline),
            status@,
            text::option_view(error),
        ),
{
    ParityCase {
        simfile_rel: rel.to_owned(),
        simfile_md5: md5.to_owned(),
        baseline_rel: baseline,
        status: status.to_owned(),
        error,
    }
}

// ---------------------------------------------------------------------------
// Rows
// ---------------------------------------------------------------------------

/// What a baseline says of a chart, or of the simfile as a whole where it names no
/// chart: the audio, and the bias.
#[derive(Debug, Clone)]
pub struct BaselineRow {
    pub chart_index: Option<usize>,
    pub music: Option<String>,
    pub bias_ms: Option<Real>,
}

/// The chart that a row is about: the one that it names, or else the first one that
/// goes by the timing of the simfile.
pub open spec fn row_chart(song: SongSummary, row: BaselineRow, chart: int) -> bool {
    &&& 0 <= chart < song.charts.len()
    &&& match row.chart_index {
        Some(i) => chart == i,
        None => !song.charts@[chart].has_own_timing && forall|j: int|
            0 <= j < chart ==> (#[trigger] song.charts@[j]).has_own_timing,
    }
}

/// Why a row is about no chart, where it is about none.
pub open spec fn chart_fault(song: SongSummary, row: BaselineRow, e: Seq<char>) -> bool {
    match row.chart_index {
        Some(i) => i >= song.charts.len() && e == "chart index out of range: "@ + text::decimal(
            i as nat,
        ),
        None => (forall|j: int|
            0 <= j < song.charts.len() ==> (#[trigger] song.charts@[j]).has_own_timing) && e
            == "no chart goes by the timing of the simfile"@,
    }
}

pub fn chart_of_row(song: &SongSummary, row: &BaselineRow) -> (out: Result<usize, String>)
    ensures
        match out {
            Ok(i) => row_chart(*song, *row, i as int),
            Err(e) => chart_fault(*song, *row, e@),
        },
{
    match row.chart_index {
        Some(i) => match check_chart_index(song, i) {
            Ok(()) => Ok(i),
            Err(e) => Err(e),
        },
        None => {
            let mut i: usize = 0;
            while i < song.charts.len()
                invariant
                    i <= song.charts.len(),
                    row.chart_index is None,
                    forall|j: int| 0 <= j < i ==> (#[trigger] song.charts@[j]).has_own_timing,
                decreases song.charts.len() - i,
            {
                if !song.charts[i].has_own_timing {
                    return Ok(i);
                }
                i += 1;
            }
            Err("no chart goes by the timing of the simfile".to_owned())
        },
    }
}

/// The audio that a row is about: the one that it names, or else that of the song.
pub open spec fn row_music(song: SongSummary, row: BaselineRow) -> Seq<char> {
    match row.music {
        Some(tag) => text::trimmed(tag@),
        None => text::trimmed(song.music_path@),
    }
}

/// Whether this is the bias that is found for a row: that of its chart in its audio.
pub open spec fn row_estimated<
    R: Fn(&str) -> Option<SimPath>,
    D: Fn(&SimPath) -> Result<OggDecode, String>,
    S: Fn(usize, &OggDecode) -> Result<BiasEstimate, String>,
>(
    simfile: SimPath,
    song: SongSummary,
    row: BaselineRow,
    lookup: R,
    decode: D,
    estimate: S,
    out: Result<Real, String>,
) -> bool {
    ||| out is Err && chart_fault(song, row, out->Err_0@)
    ||| exists|chart: usize, audio: Result<OggDecode, String>|
        {
            &&& #[trigger] row_chart(song, row, chart as int)
            &&& #[trigger] song::chart_decoded(
                simfile,
                row_music(song, row),
                lookup,
                decode,
                audio,
            )
            &&& match audio {
                Err(e) => out is Err && out->Err_0@ == e@,
                Ok(sound) => chart_estimated(chart, sound, estimate, out),
            }
        }
}

pub open spec fn chart_estimated<S: Fn(usize, &OggDecode) -> Result<BiasEstimate, String>>(
    chart: usize,
    sound: OggDecode,
    estimate: S,
    out: Result<Real, String>,
) -> bool {
    exists|found: Result<BiasEstimate, String>| #[trigger]
        call_ensures(estimate, (chart, &sound), found) && match found {
            Err(e) => out is Err && out->Err_0@ == e@,
            Ok(v) => out == Ok::<Real, String>(v.bias_ms),
        }
}

/// Finds the bias of the chart that a row is about, in the audio that it is about.
pub fn native_bias<
    R: Fn(&str) -> Option<SimPath>,
    D: Fn(&SimPath) -> Result<OggDecode, String>,
    S: Fn(usize, &OggDecode) -> Result<BiasEstimate, String>,
>(
    simfile: &SimPath,
    song: &SongSummary,
    row: &BaselineRow,
    lookup: &R,
    decode: &D,
    estimate: &S,
) -> (out: Result<Real, String>)
    requires
        forall|t: &str| #[trigger] call_requires(lookup, (t,)),
        forall|p: &SimPath| #[trigger] call_requires(decode, (p,)),
        forall|i: usize, sound: &OggDecode|
            i < song.charts.len() ==> #[trigger] call_requires(estimate, (i, sound)),
    ensures
        row_estimated(*simfile, *song, *row, *lookup, *decode, *estimate, out),
{
    let chart: usize = match chart_of_row(song, row) {
        Ok(chart) => chart,
        Err(e) => {
            return Err(e);
        },
    };
    let tag: String = match &row.music {
        Some(tag) => trim(tag.as_str()),
        None => trim(song.music_path.as_str()),
    };
    assert(tag@ == row_music(*song, *row));
    let path: SimPath = match resolve_song_audio_path(simfile, tag.as_str(), lookup) {
        Ok(path) => path,
        Err(e) => {
            assert(song::chart_audio(*simfile, tag@, *lookup, Err::<SimPath, String>(e)));
            assert(song::chart_decoded(
                *simfile,
                row_music(*song, *row),
                *lookup,
                *decode,
                Err::<OggDecode, String>(e),
            ));
            assert(row_chart(*song, *row, chart as int));
            return Err(e);
        },
    };
    let audio: Result<OggDecode, String> = decode(&path);
    assert(song::chart_audio(*simfile, tag@, *lookup, Ok::<SimPath, String>(path)));
    assert(song::decoded_at(*decode, path@, audio)) by {
        assert(call_ensures(decode, (&path,), audio));
    }
    assert(song::chart_decoded(*simfile, row_music(*song, *row), *lookup, *decode, audio));
    match audio {
        Err(e) => Err(e),
        Ok(sound) => {
            let found: Result<BiasEstimate, String> = estimate(chart, &sound);
            assert(call_ensures(estimate, (chart, &sound), found));
            let out: Result<Real, String> = match found {
                Ok(v) => Ok(v.bias_ms),
                Err(e) => Err(e),
            };
            assert(chart_estimated(chart, sound, *estimate, out));
            out
        },
    }
}

/// How a row fares: it says nothing of a bias, its bias is close to the one that is
/// found for it or far from it, or none can be found.
#[derive(Debug, Clone)]
pub enum RowFate {
    Silent,
    Close,
    Far,
    Failed(String),
}

/// The bit pattern of 0.01: how far a bias may lie from that of a baseline, in
/// milliseconds.
pub const BIAS_TOLERANCE_MS: u64 = 0x3f84_7ae1_47ae_147b;

/// Whether two biases that lie this far apart, to either side, agree.
pub open spec fn within_tolerance(apart: Real) -> bool {
    apart.absolute().at_most(Real { bits: BIAS_TOLERANCE_MS })
}

/// Whether this is what is made of two biases: that they agree, or that they do not.
pub open spec fn compared<C: Fn(Term) -> Real, L: Fn(u32, usize) -> Place>(
    num: Numerics<C, L>,
    bias: Real,
    told: Real,
    near: bool,
) -> bool {
    exists|apart: Real| #[trigger]
        call_ensures(num.calc, (Term::Minus(bias, told),), apart) && near == within_tolerance(apart)
}

/// Whether a bias lies within the tolerance of the one that a baseline tells. What is no
/// number lies near nothing.
pub fn biases_agree<C: Fn(Term) -> Real, L: Fn(u32, usize) -> Place>(
    num: &Numerics<C, L>,
    bias: Real,
    told: Real,
) -> (near: bool)
    requires
        num.ready(),
    ensures
        compared(*num, bias, told, near),
        forall|m: Meaning| #[trigger]
            num.follows(m) ==> near == within_tolerance(m.minus(bias, told)),
{
    let apart: Real = (num.calc)(Term::Minus(bias, told));
    assert(call_ensures(num.calc, (Term::Minus(bias, told),), apart));
    apart.without_sign().is_at_most(Real { bits: BIAS_TOLERANCE_MS })
}

/// What rows are judged by: what the bytes of a baseline say, the bias that is found for
/// a row of a simfile, and what biases are compared with.
pub struct Judge<P, N, C, L> {
    pub parse: P,
    pub native: N,
    pub num: Numerics<C, L>,
}

impl<
    P: Fn(&Vec<u8>) -> Result<Vec<BaselineRow>, String>,
    N: Fn(&SimPath, &BaselineRow) -> Result<Real, String>,
    C: Fn(Term) -> Real,
    L: Fn(u32, usize) -> Place,
> Judge<P, N, C, L> {
    /// Whether everything can be asked for.
    pub open spec fn ready(self) -> bool {
        &&& forall|bytes: &Vec<u8>| #[trigger] call_requires(self.parse, (bytes,))
        &&& forall|path: &SimPath, row: &BaselineRow| #[trigger]
            call_requires(self.native, (path, row))
        &&& self.num.ready()
    }

    /// Whether this is how a row fares.
    pub open spec fn fares(self, simfile: SimPath, row: BaselineRow, fate: RowFate) -> bool {
        match row.bias_ms {
            None => fate is Silent,
            Some(told) => exists|found: Result<Real, String>| #[trigger]
                call_ensures(self.native, (&simfile, &row), found) && match found {
                    Err(e) => fate == RowFate::Failed(e),
                    Ok(bias) => self.held(bias, told, fate),
                },
        }
    }

    /// Whether this is how two biases compare.
    pub open spec fn held(self, bias: Real, told: Real, fate: RowFate) -> bool {
        exists|near: bool| #[trigger]
            compared(self.num, bias, told, near) && fate == (if near {
                RowFate::Close
            } else {
                RowFate::Far
            })
    }

    /// Whether this is how the rows of a baseline fare.
    pub open spec fn all_fare(
        self,
        simfile: SimPath,
        rows: Seq<BaselineRow>,
        fates: Seq<RowFate>,
    ) -> bool {
        &&& fates.len() == rows.len()
        &&& forall|k: int| 0 <= k < rows.len() ==> self.fares(simfile, rows[k], #[trigger] fates[k])
    }

    /// What is said of a baseline whose bytes were had.
    pub open spec fn judged(
        self,
        simfile: SimPath,
        bytes: Result<Vec<u8>, String>,
        rel: Seq<char>,
        md5: Seq<char>,
        baseline: Seq<char>,
        case: ParityCase,
    ) -> bool {
        match bytes {
            Err(e) => case_is(case, rel, md5, Some(baseline), "invalid_baseline"@, Some(e@)),
            Ok(data) => exists|parsed: Result<Vec<BaselineRow>, String>| #[trigger]
                call_ensures(self.parse, (&data,), parsed) && match parsed {
                    Err(e) => case_is(
                        case,
                        rel,
                        md5,
                        Some(baseline),
                        "invalid_baseline"@,
                        Some("baseline json parse failed: "@ + e@),
                    ),
                    Ok(rows) => self.rows_judged(simfile, rows@, rel, md5, baseline, case),
                },
        }
    }

    /// What is said of the rows of a baseline.
    pub open spec fn rows_judged(
        self,
        simfile: SimPath,
        rows: Seq<BaselineRow>,
        rel: Seq<char>,
        md5: Seq<char>,
        baseline: Seq<char>,
        case: ParityCase,
    ) -> bool {
        exists|fates: Seq<RowFate>| #[trigger]
            self.all_fare(simfile, rows, fates) && case_is(
                case,
                rel,
                md5,
                Some(baseline),
                status_of(fates),
                fault_of(fates),
            )
    }

    /// Holds a row against the bias that is found for it.
    pub fn compare_row(&self, simfile: &SimPath, row: &BaselineRow) -> (fate: RowFate)
        requires
            self.ready(),
        ensures
            self.fares(*simfile, *row, fate),
    {
        match row.bias_ms {
            None => RowFate::Silent,
            Some(told) => {
                let found: Result<Real, String> = (self.native)(simfile, row);
                assert(call_ensures(self.native, (simfile, row), found));
                match found {
                    Err(e) => RowFate::Failed(e),
                    Ok(bias) => {
                        let near: bool = biases_agree(&self.num, bias, told);
                        let fate: RowFate = if near {
                            RowFate::Close
                        } else {
                            RowFate::Far
                        };
                        assert(self.held(bias, told, fate));
                        fate
                    },
                }
            },
        }
    }

    /// Holds all rows against what is found for them.
    pub fn compare_rows(&self, simfile: &SimPath, rows: &Vec<BaselineRow>) -> (fates: Vec<RowFate>)
        requires
            self.ready(),
        ensures
            self.all_fare(*simfile, rows@, fates@),
    {
        let mut fates: Vec<RowFate> = Vec::new();
        let mut i: usize = 0;
        while i < rows.len()
            invariant
                i <= rows.len(),
                fates.len() == i,
                self.ready(),
                forall|k: int|
                    0 <= k < i ==> self.fares(*simfile, rows@[k], #[trigger] fates@[k]),
            decreases rows.len() - i,
        {
            let fate: RowFate = self.compare_row(simfile, &rows[i]);
            fates.push(fate);
            i += 1;
        }
        fates
    }
}

/// The fault of the first row for which no bias can be found.
pub open spec fn first_fault(fates: Seq<RowFate>) -> Option<Seq<char>>
    decreases fates.len(),
{
    if fates.len() == 0 {
        None
    } else {
        match first_fault(fates.drop_last()) {
            Some(e) => Some(e),
            None => match fates.last() {
                RowFate::Failed(e) => Some(e@),
                _ => None,
            },
        }
    }
}

pub open spec fn any_far(fates: Seq<RowFate>) -> bool {
    exists|k: int| 0 <= k < fates.len() && #[trigger] fates[k] is Far
}

/// A baseline is mismatched where a row is far from what is found for it; else it has an
/// error where nothing can be found for a row; else it is matched.
pub open spec fn status_of(fates: Seq<RowFate>) -> Seq<char> {
    if any_far(fates) {
        "mismatched"@
    } else if first_fault(fates) is Some {
        "native_error"@
    } else {
        "matched"@
    }
}

pub open spec fn fault_of(fates: Seq<RowFate>) -> Option<Seq<char>> {
    if any_far(fates) {
        None
    } else {
        first_fault(fates)
    }
}

/// The status and the fault that the rows of a baseline lead to.
pub fn rows_verdict(fates: &Vec<RowFate>) -> (out: (&'static str, Option<String>))
    ensures
        out.0@ == status_of(fates@),
        text::option_view(out.1) == fault_of(fates@),
{
    let mut far: bool = false;
    let mut fault: Option<String> = None;
    let mut i: usize = 0;
    assert(fates@.take(0) =~= Seq::<RowFate>::empty());
    while i < fates.len()
        invariant
            i <= fates.len(),
            far == any_far(fates@.take(i as int)),
            text::option_view(fault) == first_fault(fates@.take(i as int)),
        decreases fates.len() - i,
    {
        let ghost before = fates@.take(i as int);
        let ghost now = fates@.take(i + 1);
        assert(now.drop_last() =~= before);
        assert(now.last() == fates@[i as int]);
        assert(any_far(now) == (any_far(before) || fates@[i as int] is Far)) by {
            if any_far(before) {
                let k = choose|k: int| 0 <= k < before.len() && #[trigger] before[k] is Far;
                assert(now[k] is Far);
            }
            if fates@[i as int] is Far {
                assert(now[i as int] is Far);
            }
            if any_far(now) {
                let k = choose|k: int| 0 <= k < now.len() && #[trigger] now[k] is Far;
                if k < i {
                    assert(before[k] is Far);
                }
            }
        }
        match &fates[i] {
            RowFate::Far => {
                far = true;
            },
            RowFate::Failed(e) => {
                if fault.is_none() {
                    fault = Some(copy_of(e));
                }
            },
            _ => {},
        }
        i += 1;
    }
    assert(fates@.take(i as int) =~= fates@);
    if far {
        ("mismatched", None)
    } else if fault.is_some() {
        ("native_error", fault)
    } else {
        ("matched", None)
    }
}

/// Judges a baseline file that was read.
pub fn load_baseline_file<
    P: Fn(&Vec<u8>) -> Result<Vec<BaselineRow>, String>,
    N: Fn(&SimPath, &BaselineRow) -> Result<Real, String>,
    C: Fn(Term) -> Real,
    L: Fn(u32, usize) -> Place,
>(
    judge: &Judge<P, N, C, L>,
    simfile: &SimPath,
    path: &SimPath,
    raw: Result<Vec<u8>, String>,
    simfile_rel: &str,
    digest: &str,
    baseline_rel: &str,
) -> (case: ParityCase)
    requires
        judge.ready(),
    ensures
        exists|bytes: Result<Vec<u8>, String>| #[trigger]
            baseline_bytes(path@, raw, bytes) && judge.judged(
                *simfile,
                bytes,
                simfile_rel@,
                digest@,
                baseline_rel@,
                case,
            ),
{
    let bytes: Result<Vec<u8>, String> = read_baseline(path, raw);
    assert(baseline_bytes(path@, raw, bytes));
    let baseline: Option<String> = Some(baseline_rel.to_owned());
    match bytes {
        Err(e) => parity_case(simfile_rel, digest, baseline, "invalid_baseline", Some(e)),
        Ok(data) => {
            let parsed: Result<Vec<BaselineRow>, String> = (judge.parse)(&data);
            assert(call_ensures(judge.parse, (&data,), parsed));
            match parsed {
                Ok(rows) => {
                    let fates: Vec<RowFate> = judge.compare_rows(simfile, &rows);
                    let (status, fault): (&'static str, Option<String>) = rows_verdict(&fates);
                    let case: ParityCase = parity_case(
                        simfile_rel,
                        digest,
                        baseline,
                        status,
                        fault,
                    );
                    assert(judge.all_fare(*simfile, rows@, fates@));
                    assert(judge.rows_judged(
                        *simfile,
                        rows@,
                        simfile_rel@,
                        digest@,
                        baseline_rel@,
                        case,
                    ));
                    case
                },
                Err(e) => parity_case(
                    simfile_rel,
                    digest,
                    baseline,
                    "invalid_baseline",
                    Some(join2("baseline json parse failed: ", &e)),
                ),
            }
        },
    }
}

/// What a run can ask of the file system: what a file holds, where something
/// stands below the baseline directory, and whether there is anything at a path.
pub struct Files<R, A, E> {
    pub read: R,
    pub below_baseline: A,
    pub exists: E,
}

impl<
    R: Fn(&SimPath) -> Result<Vec<u8>, String>,
    A: Fn(&str) -> SimPath,
    E: Fn(&SimPath) -> bool,
> Files<R, A, E> {
    /// Whether everything can be asked for.
    pub open spec fn ready(self) -> bool {
        &&& forall|path: &SimPath| #[trigger] call_requires(self.read, (path,))
        &&& forall|rel: &str| #[trigger] call_requires(self.below_baseline, (rel,))
        &&& forall|path: &SimPath| #[trigger] call_requires(self.exists, (path,))
    }

    /// Whether `path` stands below the baseline directory at `rel`.
    pub open spec fn stands(self, rel: Seq<char>, path: SimPath) -> bool {
        exists|r: &str| #[trigger] call_ensures(self.below_baseline, (r,), path) && r@ == rel
    }

    /// What is said of a simfile whose digest is known: the plain baseline is
    /// looked for first, then the compressed one.
    pub open spec fn judged<
        P: Fn(&Vec<u8>) -> Result<Vec<BaselineRow>, String>,
        N: Fn(&SimPath, &BaselineRow) -> Result<Real, String>,
        C: Fn(Term) -> Real,
        L: Fn(u32, usize) -> Place,
    >(
        self,
        judge: Judge<P, N, C, L>,
        simfile: SimPath,
        rel: Seq<char>,
        md5: Seq<char>,
        case: ParityCase,
    ) -> bool {
        let plain_rel = fs_scan::shard(md5) + "/"@ + md5 + ".json"@;
        let packed_rel = fs_scan::shard(md5) + "/"@ + md5 + ".json.zst"@;
        exists|plain: SimPath, packed: SimPath|
            {
                &&& #[trigger] self.stands(plain_rel, plain)
                &&& #[trigger] self.stands(packed_rel, packed)
                &&& exists|at_plain: bool| #[trigger]
                    call_ensures(self.exists, (&plain,), at_plain) && if at_plain {
                        self.loaded(plain, judge, simfile, rel, md5, plain_rel, case)
                    } else {
                        self.packed_or_missing(
                            packed,
                            judge,
                            simfile,
                            rel,
                            md5,
                            plain_rel,
                            case,
                        )
                    }
            }
    }

    /// What is said of a simfile without a plain baseline.
    pub open spec fn packed_or_missing<
        P: Fn(&Vec<u8>) -> Result<Vec<BaselineRow>, String>,
        N: Fn(&SimPath, &BaselineRow) -> Result<Real, String>,
        C: Fn(Term) -> Real,
        L: Fn(u32, usize) -> Place,
    >(
        self,
        packed: SimPath,
        judge: Judge<P, N, C, L>,
        simfile: SimPath,
        rel: Seq<char>,
        md5: Seq<char>,
        baseline: Seq<char>,
        case: ParityCase,
    ) -> bool {
        exists|at_packed: bool| #[trigger]
            call_ensures(self.exists, (&packed,), at_packed) && if at_packed {
                self.loaded(packed, judge, simfile, rel, md5, baseline, case)
            } else {
                case_is(case, rel, md5, Some(baseline), "missing_baseline"@, None)
            }
    }

    /// What is said of a simfile whose baseline stands at `path`.
    pub open spec fn loaded<
        P: Fn(&Vec<u8>) -> Result<Vec<BaselineRow>, String>,
        N: Fn(&SimPath, &BaselineRow) -> Result<Real, String>,
        C: Fn(Term) -> Real,
        L: Fn(u32, usize) -> Place,
    >(
        self,
        path: SimPath,
        judge: Judge<P, N, C, L>,
        simfile: SimPath,
        rel: Seq<char>,
        md5: Seq<char>,
        baseline: Seq<char>,
        case: ParityCase,
    ) -> bool {
        exists|raw: Result<Vec<u8>, String>, bytes: Result<Vec<u8>, String>|
            {
                &&& #[trigger] call_ensures(self.read, (&path,), raw)
                &&& #[trigger] baseline_bytes(path@, raw, bytes)
                &&& judge.judged(simfile, bytes, rel, md5, baseline, case)
            }
    }

    /// What is said of a simfile.
    pub open spec fn checked<
        P: Fn(&Vec<u8>) -> Result<Vec<BaselineRow>, String>,
        N: Fn(&SimPath, &BaselineRow) -> Result<Real, String>,
        C: Fn(Term) -> Real,
        L: Fn(u32, usize) -> Place,
    >(
        self,
        judge: Judge<P, N, C, L>,
        root: PathView,
        path: SimPath,
        case: ParityCase,
    ) -> bool {
        exists|bytes: Result<Vec<u8>, String>| #[trigger]
            call_ensures(self.read, (&path,), bytes) && match bytes {
                Err(e) => case_is(
                    case,
                    path@.below(root),
                    Seq::empty(),
                    None,
                    "read_error"@,
                    Some("read simfile failed: "@ + e@),
                ),
                Ok(data) => self.judged(
                    judge,
                    path,
                    path@.below(root),
                    fs_scan::hex(fs_scan::md5_digest(data@)),
                    case,
                ),
            }
    }
}

/// Checks a simfile whose digest is known.
fn judge_simfile<
    R: Fn(&SimPath) -> Result<Vec<u8>, String>,
    A: Fn(&str) -> SimPath,
    E: Fn(&SimPath) -> bool,
    P: Fn(&Vec<u8>) -> Result<Vec<BaselineRow>, String>,
    N: Fn(&SimPath, &BaselineRow) -> Result<Real, String>,
    C: Fn(Term) -> Real,
    L: Fn(u32, usize) -> Place,
>(
    files: &Files<R, A, E>,
    judge: &Judge<P, N, C, L>,
    simfile: &SimPath,
    rel: &str,
    digest: &str,
) -> (case: ParityCase)
    requires
        files.ready(),
        judge.ready(),
    ensures
        files.judged(*judge, *simfile, rel@, digest@, case),
{
    let baseline_rel: String = baseline_rel_for_md5(digest);
    let (plain_rel, packed_rel): (String, String) = baseline_candidates(digest);
    let plain: SimPath = (files.below_baseline)(plain_rel.as_str());
    let packed: SimPath = (files.below_baseline)(packed_rel.as_str());
    assert(files.stands(plain_rel@, plain));
    assert(files.stands(packed_rel@, packed));
    let at_plain: bool = (files.exists)(&plain);
    assert(call_ensures(files.exists, (&plain,), at_plain));
    if at_plain {
        let raw: Result<Vec<u8>, String> = (files.read)(&plain);
        assert(call_ensures(files.read, (&plain,), raw));
        let case: ParityCase = load_baseline_file(
            judge,
            simfile,
            &plain,
            raw,
            rel,
            digest,
            &baseline_rel,
        );
        assert(files.loaded(plain, *judge, *simfile, rel@, digest@, baseline_rel@, case));
        return case;
    }
    let at_packed: bool = (files.exists)(&packed);
    assert(call_ensures(files.exists, (&packed,), at_packed));
    if at_packed {
        let raw: Result<Vec<u8>, String> = (files.read)(&packed);
        assert(call_ensures(files.read, (&packed,), raw));
        let case: ParityCase = load_baseline_file(
            judge,
            simfile,
            &packed,
            raw,
            rel,
            digest,
            &baseline_rel,
        );
        assert(files.loaded(packed, *judge, *simfile, rel@, digest@, baseline_rel@, case));
        assert(files.packed_or_missing(packed, *judge, *simfile, rel@, digest@, baseline_rel@, case));
        return case;
    }
    let case: ParityCase = parity_case(
        rel,
        digest,
        Some(copy_of(&baseline_rel)),
        "missing_baseline",
        None,
    );
    assert(files.packed_or_missing(packed, *judge, *simfile, rel@, digest@, baseline_rel@, case));
    case
}

/// Checks one simfile.
pub fn check_one<
    R: Fn(&SimPath) -> Result<Vec<u8>, String>,
    A: Fn(&str) -> SimPath,
    E: Fn(&SimPath) -> bool,
    P: Fn(&Vec<u8>) -> Result<Vec<BaselineRow>, String>,
    N: Fn(&SimPath, &BaselineRow) -> Result<Real, String>,
    C: Fn(Term) -> Real,
    L: Fn(u32, usize) -> Place,
>(
    files: &Files<R, A, E>,
    judge: &Judge<P, N, C, L>,
    root: &SimPath,
    path: &SimPath,
) -> (case: ParityCase)
    requires
        path@.wf(),
        files.ready(),
        judge.ready(),
    ensures
        files.checked(*judge, root@, *path, case),
{
    let rel: String = rel_path(root, path);
    let bytes: Result<Vec<u8>, String> = (files.read)(path);
    assert(call_ensures(files.read, (path,), bytes));
    match bytes {
        Err(e) => {
            proof {
                reveal_strlit("");
                assert(""@ =~= Seq::<char>::empty());
            }
            parity_case(&rel, "", None, "read_error", Some(join2("read simfile failed: ", &e)))
        },
        Ok(data) => {
            let digest: String = md5_hex(data.as_slice());
            judge_simfile(files, judge, path, &rel, &digest)
        },
    }
}

// ---------------------------------------------------------------------------
// Reports
// ---------------------------------------------------------------------------

/// How many cases have a status.
pub open spec fn with_status(cases: Seq<ParityCase>, status: Seq<char>) -> nat
    decreases cases.len(),
{
    if cases.len() == 0 {
        0
    } else {
        with_status(cases.drop_last(), status) + if cases.last().status@ == status {
            1nat
        } else {
            0nat
        }
    }
}

pub fn count_status(cases: &Vec<ParityCase>, status: &str) -> (n: usize)
    ensures
        n == with_status(cases@, status@),
{
    let mut n: usize = 0;
    let mut i: usize = 0;
    assert(cases@.take(0) =~= Seq::<ParityCase>::empty());
    while i < cases.len()
        invariant
            i <= cases.len(),
            n <= i,
            n == with_status(cases@.take(i as int), status@),
        decreases cases.len() - i,
    {
        assert(cases@.take(i + 1).drop_last() =~= cases@.take(i as int));
        if same_text(&cases[i].status, status) {
            n += 1;
        }
        i += 1;
    }
    assert(cases@.take(i as int) =~= cases@);
    n
}

/// The report of a run.
pub fn build_report(version: &str, root: &SimPath, baseline: &SimPath, cases: Vec<ParityCase>) -> (out:
    ParityReport)
    ensures
        out.tool@ == "rnon"@,
        out.version@ == version@,
        out.mode@ == "baseline-mapping"@,
        out.root_path@ == root.text@,
        out.baseline_path@ == baseline.text@,
        out.total_simfiles == cases.len(),
        out.matched == with_status(cases@, "matched"@),
        out.mismatched == with_status(cases@, "mismatched"@),
        out.missing_baseline == with_status(cases@, "missing_baseline"@),
        out.invalid_baseline == with_status(cases@, "invalid_baseline"@),
        out.read_errors == with_status(cases@, "read_error"@),
        out.cases == cases,
{
    ParityReport {
        tool: "rnon".to_owned(),
        version: version.to_owned(),
        mode: "baseline-mapping".to_owned(),
        root_path: copy_of(&root.text),
        baseline_path: copy_of(&baseline.text),
        total_simfiles: cases.len(),
        matched: count_status(&cases, "matched"),
        mismatched: count_status(&cases, "mismatched"),
        missing_baseline: count_status(&cases, "missing_baseline"),
        invalid_baseline: count_status(&cases, "invalid_baseline"),
        read_errors: count_status(&cases, "read_error"),
        cases,
    }
}

/// Runs the check over all simfiles at the root, of which a walk came across
/// `entries`.
pub fn run<
    R: Fn(&SimPath) -> Result<Vec<u8>, String>,
    A: Fn(&str) -> SimPath,
    E: Fn(&SimPath) -> bool,
    P: Fn(&Vec<u8>) -> Result<Vec<BaselineRow>, String>,
    N: Fn(&SimPath, &BaselineRow) -> Result<Real, String>,
    C: Fn(Term) -> Real,
    L: Fn(u32, usize) -> Place,
>(
    version: &str,
    args: &ParityCmd,
    kind: RootKind,
    entries: &Vec<WalkEntry>,
    files: &Files<R, A, E>,
    judge: &Judge<P, N, C, L>,
) -> (out: Result<ParityReport, String>)
    requires
        args.root_path@.wf(),
        forall|i: int| 0 <= i < entries.len() ==> (#[trigger] entries@[i]).path@.wf(),
        files.ready(),
        judge.ready(),
    ensures
        match out {
            Err(e) => fs_scan::root_fault(args.root_path@, kind) == Some(e@),
            Ok(report) => {
                &&& report.version@ == version@
                &&& exists|found: Seq<PathView>| #[trigger]
                    fs_scan::found_at(args.root_path@, kind, entries@, found) && reports(
                        *files,
                        *judge,
                        *args,
                        found,
                        report,
                    )
            },
        },
{
    let found: Vec<SimPath> = match discover_simfiles(&args.root_path, kind, entries) {
        Ok(found) => found,
        Err(e) => {
            return Err(e);
        },
    };
    let ghost listing = fs_scan::views(found@);
    proof {
        assert forall|i: int| 0 <= i < found.len() implies (#[trigger] found@[i])@.wf() by {
            assert(listing[i] == found@[i]@);
            fs_scan::found_is_wf(args.root_path@, kind, entries@, listing, i);
        }
    }
    let mut cases: Vec<ParityCase> = Vec::new();
    let mut i: usize = 0;
    while i < found.len()
        invariant
            i <= found.len(),
            listing == fs_scan::views(found@),
            forall|i: int| 0 <= i < found.len() ==> (#[trigger] found@[i])@.wf(),
            files.ready(),
            judge.ready(),
            cases.len() == i,
            forall|k: int|
                0 <= k < i ==> checks_path(
                    *files,
                    *judge,
                    args.root_path@,
                    listing[k],
                    #[trigger] cases@[k],
                ),
        decreases found.len() - i,
    {
        let case: ParityCase = check_one(files, judge, &args.root_path, &found[i]);
        assert(checks_path(*files, *judge, args.root_path@, listing[i as int], case)) by {
            assert(listing[i as int] == found@[i as int]@);
        }
        cases.push(case);
        i += 1;
    }
    assert(checks(*files, *judge, args.root_path@, listing, cases@));
    let report: ParityReport = build_report(version, &args.root_path, &args.baseline_path, cases);
    assert(reports(*files, *judge, *args, listing, report));
    Ok(report)
}

/// Whether a case says what there is to say of the simfile at a path.
pub open spec fn checks_path<
    R: Fn(&SimPath) -> Result<Vec<u8>, String>,
    A: Fn(&str) -> SimPath,
    E: Fn(&SimPath) -> bool,
    P: Fn(&Vec<u8>) -> Result<Vec<BaselineRow>, String>,
    N: Fn(&SimPath, &BaselineRow) -> Result<Real, String>,
    C: Fn(Term) -> Real,
    L: Fn(u32, usize) -> Place,
>(
    files: Files<R, A, E>,
    judge: Judge<P, N, C, L>,
    root: PathView,
    path: PathView,
    case: ParityCase,
) -> bool {
    exists|p: SimPath| p@ == path && #[trigger] files.checked(judge, root, p, case)
}

/// Whether there is a case for every simfile, in order.
pub open spec fn checks<
    R: Fn(&SimPath) -> Result<Vec<u8>, String>,
    A: Fn(&str) -> SimPath,
    E: Fn(&SimPath) -> bool,
    P: Fn(&Vec<u8>) -> Result<Vec<BaselineRow>, String>,
    N: Fn(&SimPath, &BaselineRow) -> Result<Real, String>,
    C: Fn(Term) -> Real,
    L: Fn(u32, usize) -> Place,
>(
    files: Files<R, A, E>,
    judge: Judge<P, N, C, L>,
    root: PathView,
    found: Seq<PathView>,
    cases: Seq<ParityCase>,
) -> bool {
    &&& cases.len() == found.len()
    &&& forall|k: int|
        0 <= k < cases.len() ==> checks_path(files, judge, root, found[k], #[trigger] cases[k])
}

/// Whether a report says what there is to say of the simfiles that were found.
pub open spec fn reports<
    R: Fn(&SimPath) -> Result<Vec<u8>, String>,
    A: Fn(&str) -> SimPath,
    E: Fn(&SimPath) -> bool,
    P: Fn(&Vec<u8>) -> Result<Vec<BaselineRow>, String>,
    N: Fn(&SimPath, &BaselineRow) -> Result<Real, String>,
    C: Fn(Term) -> Real,
    L: Fn(u32, usize) -> Place,
>(
    files: Files<R, A, E>,
    judge: Judge<P, N, C, L>,
    args: ParityCmd,
    found: Seq<PathView>,
    report: ParityReport,
) -> bool {
    &&& checks(files, judge, args.root_path@, found, report.cases@)
    &&& report.tool@ == "rnon"@
    &&& report.mode@ == "baseline-mapping"@
    &&& report.root_path@ == args.root_path.text@
    &&& report.baseline_path@ == args.baseline_path.text@
    &&& report.total_simfiles == found.len()
    &&& report.matched == with_status(report.cases@, "matched"@)
    &&& report.mismatched == with_status(report.cases@, "mismatched"@)
    &&& report.missing_baseline == with_status(report.cases@, "missing_baseline"@)
    &&& report.invalid_baseline == with_status(report.cases@, "invalid_baseline"@)
    &&& report.read_errors == with_status(report.cases@, "read_error"@)
}

/// What a finished run is answered with: an error where a baseline is missing or
/// a case does not match, and that is asked to be one.
pub fn parity_verdict(args: &ParityCmd, report: &ParityReport) -> (out: Result<(), String>)
    ensures
        match out {
            Ok(()) => !(args.fail_on_missing && report.missing_baseline > 0) && !(
            args.fail_on_mismatch && report.mismatched > 0),
            Err(e) => if args.fail_on_missing && report.missing_baseline > 0 {
                e@ == "missing "@ + text::decimal(report.missing_baseline as nat)
                    + " baseline fixture(s)"@
            } else {
                args.fail_on_mismatch && report.mismatched > 0 && e@ == "found "@ + text::decimal(
                    report.mismatched as nat,
                ) + " parity mismatch case(s)"@
            },
        },
{
    if args.fail_on_missing && report.missing_baseline > 0 {
        Err(join3("missing ", &decimal_text(report.missing_baseline), " baseline fixture(s)"))
    } else if args.fail_on_mismatch && report.mismatched > 0 {
        Err(join3("found ", &decimal_text(report.mismatched), " parity mismatch case(s)"))
    } else {
        Ok(())
    }
}

/// Every case of a run is counted once: the five counts of its report add up to the
/// number of simfiles, less those for which no bias can be found.
pub proof fn every_case_is_counted<
    R: Fn(&SimPath) -> Result<Vec<u8>, String>,
    A: Fn(&str) -> SimPath,
    E: Fn(&SimPath) -> bool,
    P: Fn(&Vec<u8>) -> Result<Vec<BaselineRow>, String>,
    N: Fn(&SimPath, &BaselineRow) -> Result<Real, String>,
    C: Fn(Term) -> Real,
    L: Fn(u32, usize) -> Place,
>(
    files: Files<R, A, E>,
    judge: Judge<P, N, C, L>,
    root: PathView,
    found: Seq<PathView>,
    cases: Seq<ParityCase>,
)
    requires
        checks(files, judge, root, found, cases),
    ensures
        with_status(cases, "matched"@) + with_status(cases, "mismatched"@) + with_status(
            cases,
            "missing_baseline"@,
        ) + with_status(cases, "invalid_baseline"@) + with_status(cases, "read_error"@)
            + with_status(cases, "native_error"@) == found.len(),
        (forall|path: SimPath, row: BaselineRow, found: Result<Real, String>| #[trigger]
            call_ensures(judge.native, (&path, &row), found) ==> found is Ok) ==> with_status(
            cases,
            "native_error"@,
        ) == 0,
    decreases cases.len(),
{
    lemma_statuses_differ();
    if cases.len() > 0 {
        let last = cases.last();
        let n = cases.len() - 1;
        assert(checks_path(files, judge, root, found[n], cases[n]));
        assert forall|k: int| 0 <= k < n implies checks_path(
            files,
            judge,
            root,
            found.drop_last()[k],
            #[trigger] cases.drop_last()[k],
        ) by {
            assert(checks_path(files, judge, root, found[k], cases[k]));
        }
        every_case_is_counted(files, judge, root, found.drop_last(), cases.drop_last());
        assert(last.status@ == "matched"@ || last.status@ == "mismatched"@ || last.status@
            == "missing_baseline"@ || last.status@ == "invalid_baseline"@ || last.status@
            == "read_error"@ || last.status@ == "native_error"@);
        if last.status@ == "native_error"@ && (forall|
            path: SimPath,
            row: BaselineRow,
            found: Result<Real, String>,
        | #[trigger]
            call_ensures(judge.native, (&path, &row), found) ==> found is Ok) {
            let p = choose|p: SimPath| p@ == found[n] && #[trigger] files.checked(
                judge,
                root,
                p,
                last,
            );
            assert forall|rows: Seq<BaselineRow>, fates: Seq<RowFate>| #[trigger]
                judge.all_fare(p, rows, fates) implies first_fault(fates) is None by {
                lemma_no_fault(judge, p, rows, fates);
            }
        }
    }
}

/// Where a bias is found for every row, no row has a fault.
proof fn lemma_no_fault<
    P: Fn(&Vec<u8>) -> Result<Vec<BaselineRow>, String>,
    N: Fn(&SimPath, &BaselineRow) -> Result<Real, String>,
    C: Fn(Term) -> Real,
    L: Fn(u32, usize) -> Place,
>(judge: Judge<P, N, C, L>, simfile: SimPath, rows: Seq<BaselineRow>, fates: Seq<RowFate>)
    requires
        judge.all_fare(simfile, rows, fates),
        forall|path: SimPath, row: BaselineRow, found: Result<Real, String>| #[trigger]
            call_ensures(judge.native, (&path, &row), found) ==> found is Ok,
    ensures
        first_fault(fates) is None,
    decreases fates.len(),
{
    if fates.len() > 0 {
        let n = fates.len() - 1;
        assert(judge.fares(simfile, rows[n], fates[n]));
        assert forall|k: int| 0 <= k < n implies judge.fares(
            simfile,
            rows.drop_last()[k],
            #[trigger] fates.drop_last()[k],
        ) by {
            assert(judge.fares(simfile, rows[k], fates[k]));
        }
        lemma_no_fault(judge, simfile, rows.drop_last(), fates.drop_last());
    }
}

/// Rows are mismatched just where one is far from what is found for it, and matched just
/// where each is close or says nothing of a bias. Rows that say nothing are matched.
pub proof fn rows_match_where_they_are_close(fates: Seq<RowFate>)
    ensures
        status_of(fates) == "mismatched"@ <==> exists|k: int|
            0 <= k < fates.len() && #[trigger] fates[k] is Far,
        status_of(fates) == "matched"@ <==> forall|k: int|
            0 <= k < fates.len() ==> #[trigger] fates[k] is Close || fates[k] is Silent,
{
    lemma_statuses_differ();
    lemma_first_fault(fates);
    if status_of(fates) == "matched"@ {
        assert forall|k: int| 0 <= k < fates.len() implies #[trigger] fates[k] is Close
            || fates[k] is Silent by {
            assert(!(fates[k] is Far));
        }
    }
}

proof fn lemma_first_fault(fates: Seq<RowFate>)
    ensures
        first_fault(fates) is None <==> forall|k: int|
            0 <= k < fates.len() ==> !(#[trigger] fates[k] is Failed),
    decreases fates.len(),
{
    if fates.len() > 0 {
        let before = fates.drop_last();
        lemma_first_fault(before);
        assert(fates.last() == fates[fates.len() - 1]);
        if first_fault(fates) is None {
            assert forall|k: int| 0 <= k < fates.len() implies !(#[trigger] fates[k] is Failed) by {
                if k < before.len() {
                    assert(!(before[k] is Failed));
                }
            }
        } else {
            if first_fault(before) is Some {
                let k = choose|k: int| 0 <= k < before.len() && #[trigger] before[k] is Failed;
                assert(fates[k] is Failed);
            }
        }
    }
}

proof fn lemma_statuses_differ()
    ensures
        "matched"@ != "missing_baseline"@,
        "matched"@ != "invalid_baseline"@,
        "matched"@ != "read_error"@,
        "matched"@ != "mismatched"@,
        "matched"@ != "native_error"@,
        "missing_baseline"@ != "invalid_baseline"@,
        "missing_baseline"@ != "read_error"@,
        "missing_baseline"@ != "mismatched"@,
        "missing_baseline"@ != "native_error"@,
        "invalid_baseline"@ != "read_error"@,
        "invalid_baseline"@ != "mismatched"@,
        "invalid_baseline"@ != "native_error"@,
        "read_error"@ != "mismatched"@,
        "read_error"@ != "native_error"@,
        "mismatched"@ != "native_error"@,
{
    reveal_strlit("matched");
    reveal_strlit("missing_baseline");
    reveal_strlit("invalid_baseline");
    reveal_strlit("read_error");
    reveal_strlit("mismatched");
    reveal_strlit("native_error");
    assert("matched"@[1] == 'a' && "missing_baseline"@[1] == 'i' && "invalid_baseline"@[0] == 'i');
    assert("read_error"@[0] == 'r' && "mismatched"@.len() == 10 && "missing_baseline"@.len() == 16);
    assert("invalid_baseline"@[1] == 'n' && "mismatched"@[0] == 'm' && "matched"@.len() == 7);
    assert("missing_baseline"@[0] == 'm' && "matched"@[0] == 'm' && "native_error"@[0] == 'n');
}

// ---------------------------------------------------------------------------
// What rows and cases say
// ---------------------------------------------------------------------------

/// A row that names a chart is about that one; one that names none is about the first chart
/// that goes by the timing of the simfile. A row is about one chart, or there is a fault.
pub proof fn rows_are_about_one_chart(
    song: SongSummary,
    row: BaselineRow,
    a: int,
    b: int,
    e: Seq<char>,
)
    ensures
        row_chart(song, row, a) && row_chart(song, row, b) ==> a == b,
        row_chart(song, row, a) ==> !chart_fault(song, row, e),
        row_chart(song, row, a) && row.chart_index is Some ==> a == row.chart_index->Some_0,
        row_chart(song, row, a) && row.chart_index is None ==> !song.charts@[a].has_own_timing
            && forall|j: int| 0 <= j < a ==> (#[trigger] song.charts@[j]).has_own_timing,
        row.chart_index is Some && row.chart_index->Some_0 < song.charts.len() ==> row_chart(
            song,
            row,
            row.chart_index->Some_0 as int,
        ),
{
    if row_chart(song, row, a) && row_chart(song, row, b) && row.chart_index is None {
        if a < b {
            assert(song.charts@[a].has_own_timing);
        }
        if b < a {
            assert(song.charts@[b].has_own_timing);
        }
    }
    if row_chart(song, row, a) && row.chart_index is None {
        assert(!song.charts@[a].has_own_timing);
    }
}

/// A row that names its music is about that music, and one that names none about that of its
/// song; white space round a name does not count.
pub proof fn rows_name_their_music(song: SongSummary, row: BaselineRow)
    ensures
        row.music matches Some(tag) ==> row_music(song, row) == text::trimmed(tag@),
        row.music is None ==> row_music(song, row) == text::trimmed(song.music_path@),
{
}

/// Two biases agree where neither lies more than the hundredth part of a millisecond above the
/// other: the side does not matter, what lies between agrees too, and what is no number agrees
/// with nothing.
pub proof fn tolerance_has_no_side(apart: Real, nearer: Real)
    ensures
        within_tolerance(apart) == within_tolerance(apart.opposite()),
        within_tolerance(apart) <==> !apart.nan() && -0x3f84_7ae1_47ae_147b <= apart.place()
            <= 0x3f84_7ae1_47ae_147b,
        within_tolerance(apart) && nearer.absolute().at_most(apart.absolute())
            ==> within_tolerance(nearer),
        within_tolerance(number::zero()),
{
}

/// The fault that is told is that of the first row that has one.
pub proof fn the_first_fault_is_told(fates: Seq<RowFate>, k: int, e: String)
    requires
        0 <= k < fates.len(),
        fates[k] == RowFate::Failed(e),
        forall|j: int| 0 <= j < k ==> !(#[trigger] fates[j] is Failed),
    ensures
        first_fault(fates) == Some(e@),
        fault_of(fates) == (if exists|j: int| 0 <= j < fates.len() && #[trigger] fates[j] is Far {
            None
        } else {
            Some(e@)
        }),
    decreases fates.len(),
{
    let before = fates.drop_last();
    if k < before.len() {
        assert(before[k] == fates[k]);
        assert forall|j: int| 0 <= j < k implies !(#[trigger] before[j] is Failed) by {
            assert(fates[j] == before[j]);
        }
        the_first_fault_is_told(before, k, e);
    } else {
        assert forall|j: int| 0 <= j < before.len() implies !(#[trigger] before[j] is Failed) by {
            assert(fates[j] == before[j]);
        }
        lemma_first_fault(before);
    }
}

/// Every case with a status is counted, and no other.
pub proof fn counts_take_every_case(cases: Seq<ParityCase>, next: ParityCase, status: Seq<char>)
    ensures
        with_status(Seq::empty(), status) == 0,
        with_status(cases.push(next), status) == with_status(cases, status) + (
        if next.status@ == status {
            1int
        } else {
            0
        }),
{
    assert(cases.push(next).drop_last() =~= cases);
}

/// What is found for a row is the bias of the chart that it is about, in the audio that it
/// names or that its song does.
pub proof fn rows_are_held_against_their_charts<
    R: Fn(&str) -> Option<SimPath>,
    D: Fn(&SimPath) -> Result<OggDecode, String>,
    S: Fn(usize, &OggDecode) -> Result<BiasEstimate, String>,
>(
    simfile: SimPath,
    song: SongSummary,
    row: BaselineRow,
    lookup: R,
    decode: D,
    estimate: S,
    bias_ms: Real,
) -> (of: (usize, OggDecode, BiasEstimate))
    requires
        row_estimated(
            simfile,
            song,
            row,
            lookup,
            decode,
            estimate,
            Ok::<Real, String>(bias_ms),
        ),
    ensures
        row_chart(song, row, of.0 as int),
        song::chart_decoded(
            simfile,
            row_music(song, row),
            lookup,
            decode,
            Ok::<OggDecode, String>(of.1),
        ),
        call_ensures(estimate, (of.0, &of.1), Ok::<BiasEstimate, String>(of.2)),
        of.2.bias_ms == bias_ms,
{
    let out = Ok::<Real, String>(bias_ms);
    let (chart, audio) = choose|chart: usize, audio: Result<OggDecode, String>|
        {
            &&& #[trigger] row_chart(song, row, chart as int)
            &&& #[trigger] song::chart_decoded(
                simfile,
                row_music(song, row),
                lookup,
                decode,
                audio,
            )
            &&& match audio {
                Err(e) => out is Err && out->Err_0@ == e@,
                Ok(sound) => chart_estimated(chart, sound, estimate, out),
            }
        };
    let sound = audio->Ok_0;
    let found = choose|found: Result<BiasEstimate, String>| #[trigger]
        call_ensures(estimate, (chart, &sound), found) && match found {
            Err(e) => out is Err && out->Err_0@ == e@,
            Ok(v) => out == Ok::<Real, String>(v.bias_ms),
        };
    (chart, sound, found->Ok_0)
}

/// A row without a bias says nothing. Any other is held against the bias that is found for it:
/// it fails where none is, and else is close where the two lie no more than the tolerance
/// apart, and far where they do not.
pub proof fn rows_fare_by_their_biases<
    P: Fn(&Vec<u8>) -> Result<Vec<BaselineRow>, String>,
    N: Fn(&SimPath, &BaselineRow) -> Result<Real, String>,
    C: Fn(Term) -> Real,
    L: Fn(u32, usize) -> Place,
>(
    judge: Judge<P, N, C, L>,
    simfile: SimPath,
    rows: Seq<BaselineRow>,
    fates: Seq<RowFate>,
    k: int,
) -> (of: (Result<Real, String>, Real))
    requires
        judge.all_fare(simfile, rows, fates),
        0 <= k < rows.len(),
    ensures
        fates.len() == rows.len(),
        fates[k] is Silent <==> rows[k].bias_ms is None,
        rows[k].bias_ms is Some ==> {
            &&& call_ensures(judge.native, (&simfile, &rows[k]), of.0)
            &&& of.0 matches Err(e) ==> fates[k] == RowFate::Failed(e)
            &&& of.0 matches Ok(bias) ==> {
                &&& call_ensures(
                    judge.num.calc,
                    (Term::Minus(bias, rows[k].bias_ms->Some_0),),
                    of.1,
                )
                &&& fates[k] is Close <==> within_tolerance(of.1)
                &&& fates[k] is Far <==> !within_tolerance(of.1)
            }
        },
{
    let fate = fates[k];
    let row = rows[k];
    assert(judge.fares(simfile, row, fates[k]));
    match row.bias_ms {
        None => (Ok(number::zero()), number::zero()),
        Some(told) => {
            let found = choose|found: Result<Real, String>| #[trigger]
                call_ensures(judge.native, (&simfile, &row), found) && match found {
                    Err(e) => fate == RowFate::Failed(e),
                    Ok(bias) => judge.held(bias, told, fate),
                };
            match found {
                Err(_) => (found, number::zero()),
                Ok(bias) => {
                    let near = choose|near: bool| #[trigger]
                        compared(judge.num, bias, told, near) && fate == (if near {
                            RowFate::Close
                        } else {
                            RowFate::Far
                        });
                    let apart = choose|apart: Real| #[trigger]
                        call_ensures(judge.num.calc, (Term::Minus(bias, told),), apart) && near
                            == within_tolerance(apart);
                    (found, apart)
                },
            }
        },
    }
}

/// What is said of a simfile names the simfile and its digest. Its baseline is the plain one
/// of its digest where that exists, the compressed one where only that does, and missing where
/// neither does; either way it goes by the name of the plain one.
pub proof fn plain_baselines_come_first<
    R: Fn(&SimPath) -> Result<Vec<u8>, String>,
    A: Fn(&str) -> SimPath,
    E: Fn(&SimPath) -> bool,
    P: Fn(&Vec<u8>) -> Result<Vec<BaselineRow>, String>,
    N: Fn(&SimPath, &BaselineRow) -> Result<Real, String>,
    C: Fn(Term) -> Real,
    L: Fn(u32, usize) -> Place,
>(
    files: Files<R, A, E>,
    judge: Judge<P, N, C, L>,
    simfile: SimPath,
    rel: Seq<char>,
    md5: Seq<char>,
    case: ParityCase,
) -> (of: (SimPath, SimPath, bool, bool))
    requires
        files.judged(judge, simfile, rel, md5, case),
    ensures
        case.simfile_rel@ == rel,
        case.simfile_md5@ == md5,
        text::option_view(case.baseline_rel) == Some(
            fs_scan::shard(md5) + "/"@ + md5 + ".json"@,
        ),
        files.stands(fs_scan::shard(md5) + "/"@ + md5 + ".json"@, of.0),
        files.stands(fs_scan::shard(md5) + "/"@ + md5 + ".json.zst"@, of.1),
        call_ensures(files.exists, (&of.0,), of.2),
        !of.2 ==> call_ensures(files.exists, (&of.1,), of.3),
        of.2 || of.3 ==> files.loaded(
            if of.2 {
                of.0
            } else {
                of.1
            },
            judge,
            simfile,
            rel,
            md5,
            fs_scan::shard(md5) + "/"@ + md5 + ".json"@,
            case,
        ),
        !of.2 && !of.3 ==> case.status@ == "missing_baseline"@ && case.error is None,
{
    let plain_rel = fs_scan::shard(md5) + "/"@ + md5 + ".json"@;
    let packed_rel = fs_scan::shard(md5) + "/"@ + md5 + ".json.zst"@;
    let (plain, packed) = choose|plain: SimPath, packed: SimPath|
        {
            &&& #[trigger] files.stands(plain_rel, plain)
            &&& #[trigger] files.stands(packed_rel, packed)
            &&& exists|at_plain: bool| #[trigger]
                call_ensures(files.exists, (&plain,), at_plain) && if at_plain {
                    files.loaded(plain, judge, simfile, rel, md5, plain_rel, case)
                } else {
                    files.packed_or_missing(packed, judge, simfile, rel, md5, plain_rel, case)
                }
        };
    let at_plain = choose|at_plain: bool| #[trigger]
        call_ensures(files.exists, (&plain,), at_plain) && if at_plain {
            files.loaded(plain, judge, simfile, rel, md5, plain_rel, case)
        } else {
            files.packed_or_missing(packed, judge, simfile, rel, md5, plain_rel, case)
        };
    if at_plain {
        (plain, packed, true, false)
    } else {
        let at_packed = choose|at_packed: bool| #[trigger]
            call_ensures(files.exists, (&packed,), at_packed) && if at_packed {
                files.loaded(packed, judge, simfile, rel, md5, plain_rel, case)
            } else {
                case_is(case, rel, md5, Some(plain_rel), "missing_baseline"@, None)
            };
        (plain, packed, false, at_packed)
    }
}

} // verus!
