//! Songs: their charts and their audio.

use crate::audio::OggDecode;
use crate::estimate;
use crate::model::BiasEstimate;
use crate::paths::{copy_path, is_ogg_path, PathView, SimPath};
use crate::text;
use crate::text::{copy_of, decimal_text, join2, join4, quote, trim};
use crate::trace::{BiasEstimateWithPlot, BiasPlotData};
use vstd::prelude::*;

verus! {

/// What a simfile says of a chart.
#[derive(Debug, Clone)]
pub struct ChartInfo {
    pub step_type: String,
    pub difficulty: String,
    pub description: String,
    pub has_own_timing: bool,
}

/// What a simfile says.
#[derive(Debug, Clone)]
pub struct SongSummary {
    pub title: String,
    pub subtitle: String,
    pub artist: String,
    pub music_path: String,
    pub charts: Vec<ChartInfo>,
}

/// Why a simfile could not be loaded: it could not be read, or not be parsed.
#[derive(Debug, Clone)]
pub enum LoadFault {
    Read(String),
    Parse(String),
}

/// A chart, as it is offered for selection.
#[derive(Debug, Clone)]
pub struct SyncChartMeta {
    pub simfile_path: String,
    pub chart_index: usize,
    pub title: String,
    pub subtitle: String,
    pub artist: String,
    pub step_type: String,
    pub difficulty: String,
    pub description: String,
    pub music_tag: String,
    pub music_path: String,
}

/// What a chart is offered as.
pub ghost struct MetaView {
    pub simfile_path: Seq<char>,
    pub chart_index: int,
    pub title: Seq<char>,
    pub subtitle: Seq<char>,
    pub artist: Seq<char>,
    pub step_type: Seq<char>,
    pub difficulty: Seq<char>,
    pub description: Seq<char>,
    pub music_tag: Seq<char>,
    pub music_path: Seq<char>,
}

impl SyncChartMeta {
    pub open spec fn view(&self) -> MetaView {
        MetaView {
            simfile_path: self.simfile_path@,
            chart_index: self.chart_index as int,
            title: self.title@,
            subtitle: self.subtitle@,
            artist: self.artist@,
            step_type: self.step_type@,
            difficulty: self.difficulty@,
            description: self.description@,
            music_tag: self.music_tag@,
            music_path: self.music_path@,
        }
    }
}

/// What the chart at `i` is offered as.
pub open spec fn meta_of(simfile: Seq<char>, song: SongSummary, i: int, audio: Seq<char>) -> MetaView {
    let chart = song.charts@[i];
    MetaView {
        simfile_path: simfile,
        chart_index: i,
        title: song.title@,
        subtitle: song.subtitle@,
        artist: song.artist@,
        step_type: chart.step_type@,
        difficulty: chart.difficulty@,
        description: chart.description@,
        music_tag: text::trimmed(song.music_path@),
        music_path: audio,
    }
}

fn chart_meta(simfile: &SimPath, song: &SongSummary, i: usize, audio: &SimPath) -> (out:
    SyncChartMeta)
    requires
        i < song.charts.len(),
    ensures
        out@ == meta_of(simfile.text@, *song, i as int, audio.text@),
{
    let chart: &ChartInfo = &song.charts[i];
    SyncChartMeta {
        simfile_path: copy_of(&simfile.text),
        chart_index: i,
        title: copy_of(&song.title),
        subtitle: copy_of(&song.subtitle),
        artist: copy_of(&song.artist),
        step_type: copy_of(&chart.step_type),
        difficulty: copy_of(&chart.difficulty),
        description: copy_of(&chart.description),
        music_tag: trim(&song.music_path),
        music_path: copy_of(&audio.text),
    }
}

/// What becomes of a loaded simfile, or of the reason why there is none.
pub open spec fn loaded_as(
    simfile: Seq<char>,
    loaded: Result<SongSummary, LoadFault>,
    out: Result<SongSummary, String>,
) -> bool {
    match loaded {
        Ok(song) => out == Ok::<SongSummary, String>(song),
        Err(LoadFault::Read(e)) => out is Err && out->Err_0@ == "read "@ + simfile + " failed: "@
            + e@,
        Err(LoadFault::Parse(e)) => out is Err && out->Err_0@ == "rssp analyze failed: "@ + e@,
    }
}

/// Loads a simfile, if there is a file.
pub fn read_summary<L: Fn() -> Result<SongSummary, LoadFault>>(
    simfile: &SimPath,
    is_file: bool,
    load: &L,
) -> (out: Result<SongSummary, String>)
    requires
        call_requires(load, ()),
    ensures
        !is_file ==> out is Err && out->Err_0@ == "simfile path is not a file: "@ + simfile.text@,
        is_file ==> exists|loaded: Result<SongSummary, LoadFault>| #[trigger]
            call_ensures(load, (), loaded) && loaded_as(simfile.text@, loaded, out),
{
    if !is_file {
        return Err(join2("simfile path is not a file: ", &simfile.text));
    }
    let loaded: Result<SongSummary, LoadFault> = load();
    assert(call_ensures(load, (), loaded));
    match loaded {
        Ok(song) => Ok(song),
        Err(LoadFault::Read(e)) => Err(join4("read ", &simfile.text, " failed: ", &e)),
        Err(LoadFault::Parse(e)) => Err(join2("rssp analyze failed: ", &e)),
    }
}

/// Why there is no audio at a place that was looked up, if there is none: the
/// lookup found nothing, or something that is no ogg file.
pub open spec fn audio_fault(tag: Seq<char>, found: Option<SimPath>) -> Option<Seq<char>> {
    match found {
        None => Some("could not resolve #MUSIC "@ + text::quoted(tag)),
        Some(path) => if path@.with_ext("ogg"@) {
            None
        } else {
            Some("unsupported audio format "@ + path@.text)
        },
    }
}

/// What a lookup found, if it is audio.
pub fn checked_audio(tag: &str, found: Option<SimPath>) -> (out: Result<SimPath, String>)
    ensures
        match out {
            Ok(path) => audio_fault(tag@, found) is None && found == Some(path),
            Err(e) => audio_fault(tag@, found) == Some(e@),
        },
{
    match found {
        None => Err(join2("could not resolve #MUSIC ", &quote(tag))),
        Some(path) => {
            if is_ogg_path(&path) {
                Ok(path)
            } else {
                Err(join2("unsupported audio format ", &path.text))
            }
        },
    }
}

/// Looks up the audio of a tag, unless the tag is empty.
pub fn resolve_music_path<R: Fn(&str) -> Option<SimPath>>(tag: &str, lookup: &R) -> (out: Result<
    SimPath,
    String,
>)
    requires
        forall|t: &str| #[trigger] call_requires(lookup, (t,)),
    ensures
        text::trimmed(tag@).len() == 0 ==> out is Err && out->Err_0@
            == "simfile has empty #MUSIC tag"@,
        text::trimmed(tag@).len() > 0 ==> exists|found: Option<SimPath>| #[trigger]
            call_ensures(lookup, (tag,), found) && match out {
                Ok(path) => audio_fault(tag@, found) is None && found == Some(path),
                Err(e) => audio_fault(tag@, found) == Some(e@),
            },
{
    if trim(tag).as_str().is_empty() {
        return Err("simfile has empty #MUSIC tag".to_owned());
    }
    let found: Option<SimPath> = lookup(tag);
    assert(call_ensures(lookup, (tag,), found));
    checked_audio(tag, found)
}

/// The audio of a song, next to its simfile.
pub open spec fn song_audio<R: Fn(&str) -> Option<SimPath>>(
    simfile: SimPath,
    song: SongSummary,
    lookup: R,
    out: Result<SimPath, String>,
) -> bool {
    let tag = text::trimmed(song.music_path@);
    if !simfile@.parented() {
        out is Err && out->Err_0@ == "simfile has no parent directory: "@ + simfile.text@
    } else if text::trimmed(tag).len() == 0 {
        out is Err && out->Err_0@ == "simfile has empty #MUSIC tag"@
    } else {
        exists|t: &str, found: Option<SimPath>| #[trigger]
            call_ensures(lookup, (t,), found) && t@ == tag && match out {
                Ok(path) => audio_fault(tag, found) is None && found == Some(path),
                Err(e) => audio_fault(tag, found) == Some(e@),
            }
    }
}

/// Looks up the audio of a song.
pub fn resolve_song_music<R: Fn(&str) -> Option<SimPath>>(
    simfile: &SimPath,
    song: &SongSummary,
    lookup: &R,
) -> (out: Result<SimPath, String>)
    requires
        forall|t: &str| #[trigger] call_requires(lookup, (t,)),
    ensures
        song_audio(*simfile, *song, *lookup, out),
{
    if !simfile.has_parent() {
        return Err(join2("simfile has no parent directory: ", &simfile.text));
    }
    let tag: String = trim(&song.music_path);
    resolve_music_path(tag.as_str(), lookup)
}

/// Whether `out` offers every chart of the song, in order.
pub open spec fn offers(
    simfile: Seq<char>,
    song: SongSummary,
    audio: Seq<char>,
    out: Seq<SyncChartMeta>,
) -> bool {
    &&& out.len() == song.charts.len()
    &&& forall|i: int|
        0 <= i < out.len() ==> (#[trigger] out[i])@ == meta_of(simfile, song, i, audio)
}

/// Whether this comes of looking for the charts of a simfile.
pub open spec fn inspected<
    L: Fn() -> Result<SongSummary, LoadFault>,
    R: Fn(&str) -> Option<SimPath>,
>(
    simfile: SimPath,
    is_file: bool,
    load: L,
    lookup: R,
    out: Result<Vec<SyncChartMeta>, String>,
) -> bool {
    if !is_file {
        out is Err && out->Err_0@ == "simfile path is not a file: "@ + simfile.text@
    } else {
        exists|loaded: Result<SongSummary, LoadFault>| #[trigger]
            call_ensures(load, (), loaded) && match loaded {
                Err(_) => exists|e: Result<SongSummary, String>| #[trigger]
                    loaded_as(simfile.text@, loaded, e) && e is Err && out is Err && out->Err_0@
                        == e->Err_0@,
                Ok(song) => exists|audio: Result<SimPath, String>| #[trigger]
                    song_audio(simfile, song, lookup, audio) && match audio {
                        Err(e) => out is Err && out->Err_0@ == e@,
                        Ok(path) => out is Ok && offers(
                            simfile.text@,
                            song,
                            path.text@,
                            out->Ok_0@,
                        ),
                    },
            }
    }
}

/// The charts of a simfile, for selection.
pub fn inspect_simfile<
    L: Fn() -> Result<SongSummary, LoadFault>,
    R: Fn(&str) -> Option<SimPath>,
>(simfile: &SimPath, is_file: bool, load: &L, lookup: &R) -> (out: Result<
    Vec<SyncChartMeta>,
    String,
>)
    requires
        call_requires(load, ()),
        forall|t: &str| #[trigger] call_requires(lookup, (t,)),
    ensures
        inspected(*simfile, is_file, *load, *lookup, out),
{
    let song: SongSummary = match read_summary(simfile, is_file, load) {
        Ok(song) => song,
        Err(e) => {
            let ghost failed = Err::<SongSummary, String>(e);
            proof {
                if is_file {
                    let loaded = choose|loaded: Result<SongSummary, LoadFault>| #[trigger]
                        call_ensures(load, (), loaded) && loaded_as(simfile.text@, loaded, failed);
                    assert(loaded_as(simfile.text@, loaded, failed));
                }
            }
            return Err(e);
        },
    };
    let ghost loaded = Ok::<SongSummary, LoadFault>(song);
    proof {
        let got = choose|got: Result<SongSummary, LoadFault>| #[trigger]
            call_ensures(load, (), got) && loaded_as(
                simfile.text@,
                got,
                Ok::<SongSummary, String>(song),
            );
        assert(got == loaded);
    }
    let audio: Result<SimPath, String> = resolve_song_music(simfile, &song, lookup);
    assert(song_audio(*simfile, song, *lookup, audio));
    match audio {
        Err(e) => Err(e),
        Ok(path) => {
            let mut out: Vec<SyncChartMeta> = Vec::new();
            let mut i: usize = 0;
            while i < song.charts.len()
                invariant
                    i <= song.charts.len(),
                    out.len() == i,
                    forall|k: int|
                        0 <= k < i ==> (#[trigger] out@[k])@ == meta_of(
                            simfile.text@,
                            song,
                            k,
                            path.text@,
                        ),
                decreases song.charts.len() - i,
            {
                out.push(chart_meta(simfile, &song, i, &path));
                i += 1;
            }
            Ok(out)
        },
    }
}

/// The index of a chart, checked.
pub fn check_chart_index(song: &SongSummary, chart_index: usize) -> (out: Result<(), String>)
    ensures
        match out {
            Ok(()) => chart_index < song.charts.len(),
            Err(e) => chart_index >= song.charts.len() && e@ == "chart index out of range: "@
                + text::decimal(chart_index as nat),
        },
{
    if chart_index < song.charts.len() {
        Ok(())
    } else {
        Err(join2("chart index out of range: ", &decimal_text(chart_index)))
    }
}

/// A chart that can be analyzed: what it is, and its audio.
pub struct LoadedChart {
    pub meta: SyncChartMeta,
    pub audio: OggDecode,
}

/// What an analysis found of one chart.
#[derive(Debug, Clone)]
pub struct SyncChartResult {
    pub meta: SyncChartMeta,
    pub estimate: BiasEstimate,
    pub plot: BiasPlotData,
}

pub fn chart_result(meta: SyncChartMeta, found: BiasEstimateWithPlot) -> (out: SyncChartResult)
    ensures
        out.meta == meta,
        out.estimate == found.estimate,
        out.plot == found.plot,
{
    SyncChartResult { meta, estimate: found.estimate, plot: found.plot }
}

/// Whether this comes of looking up and decoding the audio of one chart of a song.
pub open spec fn chart_loaded<
    R: Fn(&str) -> Option<SimPath>,
    D: Fn(&SimPath) -> Result<OggDecode, String>,
>(
    simfile: SimPath,
    song: SongSummary,
    chart_index: usize,
    lookup: R,
    decode: D,
    out: Result<LoadedChart, String>,
) -> bool {
    if chart_index >= song.charts.len() {
        out is Err && out->Err_0@ == "chart index out of range: "@ + text::decimal(
            chart_index as nat,
        )
    } else {
        exists|audio: Result<SimPath, String>| #[trigger]
            song_audio(simfile, song, lookup, audio) && match audio {
                Err(e) => out is Err && out->Err_0@ == e@,
                Ok(path) => exists|decoded: Result<OggDecode, String>| #[trigger]
                    call_ensures(decode, (&path,), decoded) && match decoded {
                        Err(e) => out is Err && out->Err_0@ == e@,
                        Ok(sound) => {
                            &&& out is Ok
                            &&& out->Ok_0.audio == sound
                            &&& out->Ok_0.meta@ == meta_of(
                                simfile.text@,
                                song,
                                chart_index as int,
                                path.text@,
                            )
                        },
                    },
            }
    }
}

/// Looks up and decodes the audio of one chart of a song.
pub fn load_chart<
    R: Fn(&str) -> Option<SimPath>,
    D: Fn(&SimPath) -> Result<OggDecode, String>,
>(simfile: &SimPath, song: &SongSummary, chart_index: usize, lookup: &R, decode: &D) -> (out:
    Result<LoadedChart, String>)
    requires
        forall|t: &str| #[trigger] call_requires(lookup, (t,)),
        forall|p: &SimPath| #[trigger] call_requires(decode, (p,)),
    ensures
        chart_loaded(*simfile, *song, chart_index, *lookup, *decode, out),
{
    match check_chart_index(song, chart_index) {
        Ok(()) => {},
        Err(e) => {
            return Err(e);
        },
    }
    let audio: Result<SimPath, String> = resolve_song_music(simfile, song, lookup);
    assert(song_audio(*simfile, *song, *lookup, audio));
    match audio {
        Err(e) => Err(e),
        Ok(path) => {
            let decoded: Result<OggDecode, String> = decode(&path);
            assert(call_ensures(decode, (&path,), decoded));
            match decoded {
                Err(e) => Err(e),
                Ok(sound) => Ok(
                    LoadedChart {
                        meta: chart_meta(simfile, song, chart_index, &path),
                        audio: sound,
                    },
                ),
            }
        },
    }
}

/// Whether this comes of one chart of a song: it is estimated in the audio of the song.
pub open spec fn chart_analyzed<
    R: Fn(&str) -> Option<SimPath>,
    D: Fn(&SimPath) -> Result<OggDecode, String>,
    S: Fn(usize, &OggDecode) -> Result<BiasEstimateWithPlot, String>,
>(
    simfile: SimPath,
    song: SongSummary,
    chart_index: usize,
    lookup: R,
    decode: D,
    estimate: S,
    out: Result<SyncChartResult, String>,
) -> bool {
    exists|loaded: Result<LoadedChart, String>| #[trigger]
        chart_loaded(simfile, song, chart_index, lookup, decode, loaded) && match loaded {
            Err(e) => out is Err && out->Err_0@ == e@,
            Ok(chart) => exists|found: Result<BiasEstimateWithPlot, String>| #[trigger]
                call_ensures(estimate, (chart_index, &chart.audio), found) && match found {
                    Err(e) => out is Err && out->Err_0@ == e@,
                    Ok(v) => {
                        &&& out is Ok
                        &&& out->Ok_0.meta == chart.meta
                        &&& out->Ok_0.estimate == v.estimate
                        &&& out->Ok_0.plot == v.plot
                    },
                },
        }
}

/// Whether every chart of whatever song is loaded can be estimated.
pub open spec fn charts_can_be_asked_for<
    L: Fn() -> Result<SongSummary, LoadFault>,
    V,
    S: Fn(usize, &OggDecode) -> V,
>(load: L, estimate: S) -> bool {
    forall|song: SongSummary, i: usize, sound: &OggDecode|
        #![trigger loads(load, song), call_requires(estimate, (i, sound))]
        loads(load, song) && i < song.charts.len() ==> call_requires(estimate, (i, sound))
}

/// Whether a simfile can be loaded as a song.
pub open spec fn loads<L: Fn() -> Result<SongSummary, LoadFault>>(
    load: L,
    song: SongSummary,
) -> bool {
    call_ensures(load, (), Ok::<SongSummary, LoadFault>(song))
}

/// Whether this comes of one chart of a simfile.
pub open spec fn analyzed<
    L: Fn() -> Result<SongSummary, LoadFault>,
    R: Fn(&str) -> Option<SimPath>,
    D: Fn(&SimPath) -> Result<OggDecode, String>,
    S: Fn(usize, &OggDecode) -> Result<BiasEstimateWithPlot, String>,
>(
    simfile: SimPath,
    is_file: bool,
    chart_index: usize,
    load: L,
    lookup: R,
    decode: D,
    estimate: S,
    out: Result<SyncChartResult, String>,
) -> bool {
    if !is_file {
        out is Err && out->Err_0@ == "simfile path is not a file: "@ + simfile.text@
    } else {
        exists|loaded: Result<SongSummary, LoadFault>| #[trigger]
            call_ensures(load, (), loaded) && match loaded {
                Err(_) => exists|e: Result<SongSummary, String>| #[trigger]
                    loaded_as(simfile.text@, loaded, e) && e is Err && out is Err && out->Err_0@
                        == e->Err_0@,
                Ok(song) => chart_analyzed(
                    simfile,
                    song,
                    chart_index,
                    lookup,
                    decode,
                    estimate,
                    out,
                ),
            }
    }
}

/// Estimates the bias of one chart of a simfile, with what can be plotted of it. `load`
/// loads the simfile, and `estimate` is told the index of the chart and the audio.
pub fn analyze_chart_with_runtime<
    L: Fn() -> Result<SongSummary, LoadFault>,
    R: Fn(&str) -> Option<SimPath>,
    D: Fn(&SimPath) -> Result<OggDecode, String>,
    S: Fn(usize, &OggDecode) -> Result<BiasEstimateWithPlot, String>,
>(
    simfile: &SimPath,
    is_file: bool,
    chart_index: usize,
    load: &L,
    lookup: &R,
    decode: &D,
    estimate: &S,
) -> (out: Result<SyncChartResult, String>)
    requires
        call_requires(load, ()),
        forall|t: &str| #[trigger] call_requires(lookup, (t,)),
        forall|p: &SimPath| #[trigger] call_requires(decode, (p,)),
        charts_can_be_asked_for(*load, *estimate),
    ensures
        analyzed(*simfile, is_file, chart_index, *load, *lookup, *decode, *estimate, out),
{
    let read: Result<SongSummary, String> = read_summary(simfile, is_file, load);
    let song: SongSummary = match read {
        Ok(song) => song,
        Err(e) => {
            proof {
                if is_file {
                    let loaded = choose|loaded: Result<SongSummary, LoadFault>| #[trigger]
                        call_ensures(load, (), loaded) && loaded_as(simfile.text@, loaded, read);
                    assert(loaded_as(simfile.text@, loaded, read));
                }
            }
            return Err(e);
        },
    };
    assert(loads(*load, song));
    let loaded: Result<LoadedChart, String> = load_chart(
        simfile,
        &song,
        chart_index,
        lookup,
        decode,
    );
    assert(chart_loaded(*simfile, song, chart_index, *lookup, *decode, loaded));
    let chart: LoadedChart = match loaded {
        Ok(chart) => chart,
        Err(e) => {
            return Err(e);
        },
    };
    let found: Result<BiasEstimateWithPlot, String> = estimate(chart_index, &chart.audio);
    assert(call_ensures(estimate, (chart_index, &chart.audio), found));
    match found {
        Ok(v) => Ok(chart_result(chart.meta, v)),
        Err(e) => Err(e),
    }
}

/// Whether two summaries offer the same charts of the same song.
pub open spec fn same_offer(a: SongSummary, b: SongSummary) -> bool {
    &&& a.title@ == b.title@
    &&& a.subtitle@ == b.subtitle@
    &&& a.artist@ == b.artist@
    &&& a.music_path@ == b.music_path@
    &&& a.charts.len() == b.charts.len()
    &&& forall|i: int|
        #![trigger a.charts@[i]]
        0 <= i < a.charts.len() ==> {
            &&& a.charts@[i].step_type@ == b.charts@[i].step_type@
            &&& a.charts@[i].difficulty@ == b.charts@[i].difficulty@
            &&& a.charts@[i].description@ == b.charts@[i].description@
        }
}

/// Whether a simfile is loaded as the same song each time.
pub open spec fn loads_the_same<L: Fn() -> Result<SongSummary, LoadFault>>(load: L) -> bool {
    forall|a: Result<SongSummary, LoadFault>, b: Result<SongSummary, LoadFault>| #[trigger]
        call_ensures(load, (), a) && #[trigger] call_ensures(load, (), b) ==> match (a, b) {
            (Ok(x), Ok(y)) => same_offer(x, y),
            (Err(_), Err(_)) => true,
            _ => false,
        }
}

/// Whether a tag is looked up at the same place each time.
pub open spec fn finds_the_same<R: Fn(&str) -> Option<SimPath>>(lookup: R) -> bool {
    forall|s: &str, t: &str, a: Option<SimPath>, b: Option<SimPath>| #[trigger]
        call_ensures(lookup, (s,), a) && #[trigger] call_ensures(lookup, (t,), b) && s@ == t@
            ==> match (a, b) {
            (Some(x), Some(y)) => x.text@ == y.text@,
            (None, None) => true,
            _ => false,
        }
}

/// Whether every estimate comes with the plot of itself.
pub open spec fn plots_itself<S: Fn(usize, &OggDecode) -> Result<BiasEstimateWithPlot, String>>(
    estimate: S,
) -> bool {
    forall|i: usize, sound: &OggDecode, v: BiasEstimateWithPlot| #[trigger]
        call_ensures(estimate, (i, sound), Ok::<BiasEstimateWithPlot, String>(v))
            ==> estimate::plotted_together(v)
}

/// The charts that are offered for selection are those that are analyzed: where a simfile
/// offers charts, no other index is analyzed, and what is found of a chart is found of
/// that one. Its plot shows the bias of its estimate, and each matrix of the plot has as
/// many cells as its rows and columns ask for.
pub proof fn offered_charts_are_analyzed<
    L: Fn() -> Result<SongSummary, LoadFault>,
    R: Fn(&str) -> Option<SimPath>,
    D: Fn(&SimPath) -> Result<OggDecode, String>,
    S: Fn(usize, &OggDecode) -> Result<BiasEstimateWithPlot, String>,
>(
    simfile: SimPath,
    is_file: bool,
    chart_index: usize,
    load: L,
    lookup: R,
    decode: D,
    estimate: S,
    offered: Vec<SyncChartMeta>,
    out: Result<SyncChartResult, String>,
)
    requires
        loads_the_same(load),
        finds_the_same(lookup),
        plots_itself(estimate),
        inspected(
            simfile,
            is_file,
            load,
            lookup,
            Ok::<Vec<SyncChartMeta>, String>(offered),
        ),
        analyzed(simfile, is_file, chart_index, load, lookup, decode, estimate, out),
    ensures
        chart_index >= offered.len() ==> out is Err && out->Err_0@ == "chart index out of range: "@
            + text::decimal(chart_index as nat),
        out matches Ok(r) ==> {
            &&& chart_index < offered.len()
            &&& r.meta@ == offered@[chart_index as int]@
            &&& r.plot.bias_ms == r.estimate.bias_ms
            &&& r.plot.freq_domain.len() == r.plot.freq_rows * r.plot.cols
            &&& r.plot.beat_digest.len() == r.plot.digest_rows * r.plot.cols
            &&& r.plot.post_kernel.len() == r.plot.post_rows * r.plot.cols
            &&& r.plot.convolution.len() == r.plot.cols
        },
{
    let seen = choose|loaded: Result<SongSummary, LoadFault>| #[trigger]
        call_ensures(load, (), loaded) && loaded is Ok && exists|audio: Result<SimPath, String>|
            #[trigger]
            song_audio(simfile, loaded->Ok_0, lookup, audio) && audio is Ok && offers(
                simfile.text@,
                loaded->Ok_0,
                audio->Ok_0.text@,
                offered@,
            );
    let song_a = seen->Ok_0;
    let audio_a = choose|audio: Result<SimPath, String>| #[trigger]
        song_audio(simfile, song_a, lookup, audio) && audio is Ok && offers(
            simfile.text@,
            song_a,
            audio->Ok_0.text@,
            offered@,
        );
    let again = choose|loaded: Result<SongSummary, LoadFault>| #[trigger]
        call_ensures(load, (), loaded) && loaded is Ok && chart_analyzed(
            simfile,
            loaded->Ok_0,
            chart_index,
            lookup,
            decode,
            estimate,
            out,
        );
    let song_b = again->Ok_0;
    assert(same_offer(song_a, song_b));
    if out is Ok {
        let loaded = choose|loaded: Result<LoadedChart, String>| #[trigger]
            chart_loaded(simfile, song_b, chart_index, lookup, decode, loaded) && loaded is Ok
                && exists|found: Result<BiasEstimateWithPlot, String>| #[trigger]
                call_ensures(estimate, (chart_index, &loaded->Ok_0.audio), found) && found is Ok
                    && out->Ok_0.meta == loaded->Ok_0.meta && out->Ok_0.estimate
                    == found->Ok_0.estimate && out->Ok_0.plot == found->Ok_0.plot;
        let audio_b = choose|audio: Result<SimPath, String>| #[trigger]
            song_audio(simfile, song_b, lookup, audio) && audio is Ok && loaded->Ok_0.meta@
                == meta_of(simfile.text@, song_b, chart_index as int, audio->Ok_0.text@);
        lemma_same_audio(simfile, song_a, song_b, lookup, audio_a->Ok_0, audio_b->Ok_0);
        let i = chart_index as int;
        assert(offered@[i]@ == meta_of(simfile.text@, song_a, i, audio_a->Ok_0.text@));
        assert(song_a.charts@[i].step_type@ == song_b.charts@[i].step_type@);
        assert(meta_of(simfile.text@, song_a, i, audio_a->Ok_0.text@) == meta_of(
            simfile.text@,
            song_b,
            i,
            audio_b->Ok_0.text@,
        ));
        let v = BiasEstimateWithPlot { estimate: out->Ok_0.estimate, plot: out->Ok_0.plot };
        assert(estimate::plotted_together(v));
    }
}

/// The same music is found at the same place.
proof fn lemma_same_audio<R: Fn(&str) -> Option<SimPath>>(
    simfile: SimPath,
    song_a: SongSummary,
    song_b: SongSummary,
    lookup: R,
    a: SimPath,
    b: SimPath,
)
    requires
        finds_the_same(lookup),
        song_a.music_path@ == song_b.music_path@,
        song_audio(simfile, song_a, lookup, Ok::<SimPath, String>(a)),
        song_audio(simfile, song_b, lookup, Ok::<SimPath, String>(b)),
    ensures
        a.text@ == b.text@,
{
}

// ---------------------------------------------------------------------------
// Audio that is used again
// ---------------------------------------------------------------------------

/// Audio that was decoded, or why it could not be.
pub struct AudioCacheEntry {
    pub path: SimPath,
    pub decode: Result<OggDecode, String>,
}

/// The audio of a song that was decoded so far, none twice.
pub struct AudioCache {
    pub entries: Vec<AudioCacheEntry>,
}

/// Whether this is what decoding the audio at a path gave.
pub open spec fn decoded_at<D: Fn(&SimPath) -> Result<OggDecode, String>>(
    decode: D,
    path: PathView,
    decoded: Result<OggDecode, String>,
) -> bool {
    exists|p: &SimPath| #[trigger]
        call_ensures(decode, (p,), decoded) && p@.parts == path.parts
}

impl AudioCache {
    /// Whether everything in it was decoded with `decode`.
    pub open spec fn filled<D: Fn(&SimPath) -> Result<OggDecode, String>>(self, decode: D) -> bool {
        forall|i: int|
            0 <= i < self.entries.len() ==> decoded_at(
                decode,
                self.entries@[i].path@,
                (#[trigger] self.entries@[i]).decode,
            )
    }

    pub open spec fn wf(self) -> bool {
        forall|i: int, j: int|
            0 <= i < j < self.entries.len() ==> (#[trigger] self.entries@[i]).path@.parts
                != (#[trigger] self.entries@[j]).path@.parts
    }

    pub fn new() -> (out: AudioCache)
        ensures
            out.wf(),
            out.entries@.len() == 0,
    {
        AudioCache { entries: Vec::new() }
    }

    fn slot(&self, path: &SimPath) -> (out: Option<usize>)
        ensures
            match out {
                Some(i) => i < self.entries.len() && self.entries@[i as int].path@.parts
                    == path@.parts,
                None => forall|j: int|
                    0 <= j < self.entries.len() ==> (#[trigger] self.entries@[j]).path@.parts
                        != path@.parts,
            },
    {
        let mut i: usize = 0;
        while i < self.entries.len()
            invariant
                i <= self.entries.len(),
                forall|j: int|
                    0 <= j < i ==> (#[trigger] self.entries@[j]).path@.parts != path@.parts,
            decreases self.entries.len() - i,
        {
            if crate::paths::same_path(&self.entries[i].path, path) {
                return Some(i);
            }
            i += 1;
        }
        None
    }

    /// The place of the audio at a path, which is decoded where it was not yet.
    pub fn fetch<D: Fn(&SimPath) -> Result<OggDecode, String>>(
        &mut self,
        path: &SimPath,
        decode: &D,
    ) -> (at: usize)
        requires
            old(self).wf(),
            call_requires(decode, (path,)),
        ensures
            final(self).wf(),
            at < final(self).entries.len(),
            final(self).entries@[at as int].path@.parts == path@.parts,
            (exists|i: int|
                0 <= i < old(self).entries.len() && (#[trigger] old(self).entries@[i]).path@.parts
                    == path@.parts) ==> final(self).entries@ == old(self).entries@,
            (forall|i: int|
                0 <= i < old(self).entries.len() ==> (#[trigger] old(
                    self,
                ).entries@[i]).path@.parts != path@.parts) ==> {
                &&& at == old(self).entries.len()
                &&& final(self).entries@.drop_last() == old(self).entries@
                &&& call_ensures(decode, (path,), final(self).entries@[at as int].decode)
            },
            old(self).filled(*decode) ==> final(self).filled(*decode),
    {
        match self.slot(path) {
            Some(i) => i,
            None => {
                let ghost before = self.entries@;
                let decoded: Result<OggDecode, String> = decode(path);
                assert(call_ensures(decode, (path,), decoded));
                self.entries.push(AudioCacheEntry { path: copy_path(path), decode: decoded });
                assert(self.entries@.drop_last() =~= before);
                assert forall|i: int|
                    0 <= i < self.entries.len() && old(self).filled(*decode) implies decoded_at(
                    *decode,
                    self.entries@[i].path@,
                    (#[trigger] self.entries@[i]).decode,
                ) by {
                    if i < before.len() {
                        assert(self.entries@[i] == before[i]);
                    }
                }
                self.entries.len() - 1
            },
        }
    }
}

/// The audio that a chart names, next to its simfile.
pub open spec fn chart_audio<R: Fn(&str) -> Option<SimPath>>(
    simfile: SimPath,
    music_tag: Seq<char>,
    lookup: R,
    out: Result<SimPath, String>,
) -> bool {
    if !simfile@.parented() {
        out is Err && out->Err_0@ == "simfile has no parent directory"@
    } else {
        exists|t: &str, found: Option<SimPath>| #[trigger]
            call_ensures(lookup, (t,), found) && t@ == music_tag && match out {
                Ok(path) => audio_fault(music_tag, found) is None && found == Some(path),
                Err(e) => audio_fault(music_tag, found) == Some(e@),
            }
    }
}

/// Looks up the audio that a chart names.
pub fn resolve_song_audio_path<R: Fn(&str) -> Option<SimPath>>(
    simfile: &SimPath,
    music_tag: &str,
    lookup: &R,
) -> (out: Result<SimPath, String>)
    requires
        forall|t: &str| #[trigger] call_requires(lookup, (t,)),
    ensures
        chart_audio(*simfile, music_tag@, *lookup, out),
{
    if !simfile.has_parent() {
        return Err("simfile has no parent directory".to_owned());
    }
    let found: Option<SimPath> = lookup(music_tag);
    assert(call_ensures(lookup, (music_tag,), found));
    checked_audio(music_tag, found)
}

/// The audio that a chart names, decoded.
pub open spec fn chart_decoded<
    R: Fn(&str) -> Option<SimPath>,
    D: Fn(&SimPath) -> Result<OggDecode, String>,
>(
    simfile: SimPath,
    music_tag: Seq<char>,
    lookup: R,
    decode: D,
    out: Result<OggDecode, String>,
) -> bool {
    exists|found: Result<SimPath, String>| #[trigger]
        chart_audio(simfile, music_tag, lookup, found) && match found {
            Err(e) => out is Err && out->Err_0@ == e@,
            Ok(path) => decoded_at(decode, path@, out),
        }
}

/// Looks up the audio that a chart names and decodes it, unless it was decoded for
/// a chart before. The place of the audio in the cache is handed out.
pub fn decode_song_audio_cached<
    R: Fn(&str) -> Option<SimPath>,
    D: Fn(&SimPath) -> Result<OggDecode, String>,
>(
    simfile: &SimPath,
    music_tag: &str,
    cache: &mut AudioCache,
    lookup: &R,
    decode: &D,
) -> (out: Result<usize, String>)
    requires
        old(cache).wf(),
        old(cache).filled(*decode),
        forall|t: &str| #[trigger] call_requires(lookup, (t,)),
        forall|p: &SimPath| #[trigger] call_requires(decode, (p,)),
    ensures
        final(cache).wf(),
        final(cache).filled(*decode),
        match out {
            Err(e) => final(cache).entries@ == old(cache).entries@ && chart_decoded(
                *simfile,
                music_tag@,
                *lookup,
                *decode,
                Err::<OggDecode, String>(e),
            ),
            Ok(at) => at < final(cache).entries.len() && chart_decoded(
                *simfile,
                music_tag@,
                *lookup,
                *decode,
                final(cache).entries@[at as int].decode,
            ),
        },
{
    let found: Result<SimPath, String> = resolve_song_audio_path(simfile, music_tag, lookup);
    assert(chart_audio(*simfile, music_tag@, *lookup, found));
    match found {
        Err(e) => Err(e),
        Ok(path) => {
            let at: usize = cache.fetch(&path, decode);
            assert(decoded_at(*decode, path@, cache.entries@[at as int].decode));
            Ok(at)
        },
    }
}

/// Audio is what a lookup found, where that is an ogg file; else there is a fault that names
/// the tag, quoted, or the file.
pub proof fn only_ogg_files_are_audio(tag: Seq<char>, found: Option<SimPath>)
    ensures
        audio_fault(tag, found) is None <==> (found is Some && text::option_view(
            found->Some_0.ext,
        ) is Some && text::lower(text::option_view(found->Some_0.ext)->Some_0) == "ogg"@),
        found is None ==> audio_fault(tag, found) is Some && text::ends_with(
            audio_fault(tag, found)->Some_0,
            text::quoted(tag),
        ),
        found is Some && audio_fault(tag, found) is Some ==> text::ends_with(
            audio_fault(tag, found)->Some_0,
            found->Some_0.text@,
        ),
{
    reveal_strlit("ogg");
    assert(text::lower("ogg"@) =~= "ogg"@);
    text::parts_are_found_where_they_stand(
        "could not resolve #MUSIC "@,
        text::quoted(tag),
        Seq::empty(),
        Seq::empty(),
    );
    if found is Some {
        text::parts_are_found_where_they_stand(
            "unsupported audio format "@,
            found->Some_0.text@,
            Seq::empty(),
            Seq::empty(),
        );
    }
}

/// Charts of one song are offered alike but for what they are themselves: each under its own
/// number, type of steps, difficulty and description.
pub proof fn charts_are_offered_as_what_they_are(
    simfile: Seq<char>,
    song: SongSummary,
    i: int,
    j: int,
    audio: Seq<char>,
)
    ensures
        ({
            let (a, b) = (meta_of(simfile, song, i, audio), meta_of(simfile, song, j, audio));
            &&& a == (MetaView {
                chart_index: i,
                step_type: song.charts@[i].step_type@,
                difficulty: song.charts@[i].difficulty@,
                description: song.charts@[i].description@,
                ..b
            })
            &&& a.simfile_path == simfile && a.music_path == audio
            &&& a.title == song.title@ && a.subtitle == song.subtitle@ && a.artist == song.artist@
            &&& a.music_tag == text::trimmed(song.music_path@)
        }),
{
}

/// The audio of a song is what the lookup finds for its tag, without white space round it,
/// next to the simfile, where that is an ogg file.
pub proof fn songs_have_the_audio_of_their_tag<R: Fn(&str) -> Option<SimPath>>(
    simfile: SimPath,
    song: SongSummary,
    lookup: R,
    out: Result<SimPath, String>,
)
    requires
        song_audio(simfile, song, lookup, out),
    ensures
        out is Ok ==> simfile@.parented() && text::trimmed(song.music_path@).len() > 0,
        out is Ok ==> out->Ok_0@.with_ext("ogg"@),
        out is Ok ==> exists|t: &str| #[trigger]
            call_ensures(lookup, (t,), Some(out->Ok_0)) && t@ == text::trimmed(song.music_path@),
        !simfile@.parented() ==> out is Err && out->Err_0@ == "simfile has no parent directory: "@
            + simfile.text@,
        simfile@.parented() && text::trimmed(song.music_path@).len() == 0 ==> out is Err
            && out->Err_0@ == "simfile has empty #MUSIC tag"@,
{
    text::only_white_ends_are_trimmed(song.music_path@);
}

/// The audio of a chart is what the lookup finds for the tag that it names, next to the
/// simfile, where that is an ogg file; it is decoded from where it was found.
pub proof fn charts_have_the_audio_of_their_tag<
    R: Fn(&str) -> Option<SimPath>,
    D: Fn(&SimPath) -> Result<OggDecode, String>,
>(
    simfile: SimPath,
    tag: Seq<char>,
    lookup: R,
    decode: D,
    sound: OggDecode,
) -> (path: SimPath)
    requires
        chart_decoded(simfile, tag, lookup, decode, Ok::<OggDecode, String>(sound)),
    ensures
        simfile@.parented(),
        path@.with_ext("ogg"@),
        exists|t: &str| #[trigger] call_ensures(lookup, (t,), Some(path)) && t@ == tag,
        exists|p: &SimPath| #[trigger]
            call_ensures(decode, (p,), Ok::<OggDecode, String>(sound)) && p@.parts == path@.parts,
{
    let out = Ok::<OggDecode, String>(sound);
    let found = choose|found: Result<SimPath, String>| #[trigger]
        chart_audio(simfile, tag, lookup, found) && match found {
            Err(e) => out is Err && out->Err_0@ == e@,
            Ok(path) => decoded_at(decode, path@, out),
        };
    found->Ok_0
}

/// What comes of a chart is about the chart that is asked for: it is offered as what it is, and
/// its estimate is the one that is made of it from the audio of the song.
pub proof fn analyses_are_of_the_chart_that_is_asked_for<
    R: Fn(&str) -> Option<SimPath>,
    D: Fn(&SimPath) -> Result<OggDecode, String>,
    S: Fn(usize, &OggDecode) -> Result<BiasEstimateWithPlot, String>,
>(
    simfile: SimPath,
    song: SongSummary,
    chart_index: usize,
    lookup: R,
    decode: D,
    estimate: S,
    out: Result<SyncChartResult, String>,
) -> (of: (SimPath, OggDecode, BiasEstimateWithPlot))
    requires
        chart_analyzed(simfile, song, chart_index, lookup, decode, estimate, out),
    ensures
        chart_index >= song.charts.len() ==> out is Err && out->Err_0@
            == "chart index out of range: "@ + text::decimal(chart_index as nat),
        out is Ok ==> {
            &&& chart_index < song.charts.len()
            &&& song_audio(simfile, song, lookup, Ok::<SimPath, String>(of.0))
            &&& call_ensures(decode, (&of.0,), Ok::<OggDecode, String>(of.1))
            &&& call_ensures(
                estimate,
                (chart_index, &of.1),
                Ok::<BiasEstimateWithPlot, String>(of.2),
            )
            &&& out->Ok_0.estimate == of.2.estimate
            &&& out->Ok_0.plot == of.2.plot
            &&& out->Ok_0.meta@ == meta_of(
                simfile.text@,
                song,
                chart_index as int,
                of.0.text@,
            )
        },
{
    let loaded = choose|loaded: Result<LoadedChart, String>| #[trigger]
        chart_loaded(simfile, song, chart_index, lookup, decode, loaded) && match loaded {
            Err(e) => out is Err && out->Err_0@ == e@,
            Ok(chart) => exists|found: Result<BiasEstimateWithPlot, String>| #[trigger]
                call_ensures(estimate, (chart_index, &chart.audio), found) && match found {
                    Err(e) => out is Err && out->Err_0@ == e@,
                    Ok(v) => {
                        &&& out is Ok
                        &&& out->Ok_0.meta == chart.meta
                        &&& out->Ok_0.estimate == v.estimate
                        &&& out->Ok_0.plot == v.plot
                    },
                },
        };
    let chart = loaded->Ok_0;
    let found = choose|found: Result<BiasEstimateWithPlot, String>| #[trigger]
        call_ensures(estimate, (chart_index, &chart.audio), found) && match found {
            Err(e) => out is Err && out->Err_0@ == e@,
            Ok(v) => {
                &&& out is Ok
                &&& out->Ok_0.meta == chart.meta
                &&& out->Ok_0.estimate == v.estimate
                &&& out->Ok_0.plot == v.plot
            },
        };
    let audio = choose|audio: Result<SimPath, String>| #[trigger]
        song_audio(simfile, song, lookup, audio) && match audio {
            Err(e) => loaded is Err && loaded->Err_0@ == e@,
            Ok(path) => exists|decoded: Result<OggDecode, String>| #[trigger]
                call_ensures(decode, (&path,), decoded) && match decoded {
                    Err(e) => loaded is Err && loaded->Err_0@ == e@,
                    Ok(sound) => {
                        &&& loaded is Ok
                        &&& loaded->Ok_0.audio == sound
                        &&& loaded->Ok_0.meta@ == meta_of(
                            simfile.text@,
                            song,
                            chart_index as int,
                            path.text@,
                        )
                    },
                },
        };
    (audio->Ok_0, chart.audio, found->Ok_0)
}

/// A simfile that cannot be read or parsed tells which of the two it is; any other is the song
/// that was loaded.
pub proof fn faults_of_loading_are_told_apart(
    simfile: Seq<char>,
    loaded: Result<SongSummary, LoadFault>,
    out: Result<SongSummary, String>,
)
    requires
        loaded_as(simfile, loaded, out),
    ensures
        out is Ok <==> loaded is Ok,
        out is Ok ==> out->Ok_0 == loaded->Ok_0,
        loaded matches Err(LoadFault::Read(e)) ==> out->Err_0@ == "read "@ + simfile
            + " failed: "@ + e@,
        loaded matches Err(LoadFault::Parse(e)) ==> out->Err_0@ == "rssp analyze failed: "@ + e@,
{
}

/// Only a file is looked into. What is offered of it is every chart of the song that was
/// loaded, in order, with the audio that was found.
pub proof fn only_files_are_looked_into<
    L: Fn() -> Result<SongSummary, LoadFault>,
    R: Fn(&str) -> Option<SimPath>,
>(
    simfile: SimPath,
    is_file: bool,
    load: L,
    lookup: R,
    out: Result<Vec<SyncChartMeta>, String>,
    i: int,
) -> (of: (SongSummary, SimPath))
    requires
        inspected(simfile, is_file, load, lookup, out),
    ensures
        !is_file ==> out is Err && out->Err_0@ == "simfile path is not a file: "@ + simfile.text@,
        out is Ok ==> {
            &&& is_file
            &&& call_ensures(load, (), Ok::<SongSummary, LoadFault>(of.0))
            &&& song_audio(simfile, of.0, lookup, Ok::<SimPath, String>(of.1))
            &&& out->Ok_0.len() == of.0.charts.len()
            &&& 0 <= i < of.0.charts.len() ==> out->Ok_0@[i]@ == meta_of(
                simfile.text@,
                of.0,
                i,
                of.1.text@,
            )
        },
{
    let loaded = choose|loaded: Result<SongSummary, LoadFault>| #[trigger]
        call_ensures(load, (), loaded) && match loaded {
            Err(_) => exists|e: Result<SongSummary, String>| #[trigger]
                loaded_as(simfile.text@, loaded, e) && e is Err && out is Err && out->Err_0@
                    == e->Err_0@,
            Ok(song) => exists|audio: Result<SimPath, String>| #[trigger]
                song_audio(simfile, song, lookup, audio) && match audio {
                    Err(e) => out is Err && out->Err_0@ == e@,
                    Ok(path) => out is Ok && offers(simfile.text@, song, path.text@, out->Ok_0@),
                },
        };
    let song = loaded->Ok_0;
    let audio = choose|audio: Result<SimPath, String>| #[trigger]
        song_audio(simfile, song, lookup, audio) && match audio {
            Err(e) => out is Err && out->Err_0@ == e@,
            Ok(path) => out is Ok && offers(simfile.text@, song, path.text@, out->Ok_0@),
        };
    (song, audio->Ok_0)
}

/// Only a file is analyzed, and what comes of it comes of the song that was loaded.
pub proof fn only_files_are_analyzed<
    L: Fn() -> Result<SongSummary, LoadFault>,
    R: Fn(&str) -> Option<SimPath>,
    D: Fn(&SimPath) -> Result<OggDecode, String>,
    S: Fn(usize, &OggDecode) -> Result<BiasEstimateWithPlot, String>,
>(
    simfile: SimPath,
    is_file: bool,
    chart_index: usize,
    load: L,
    lookup: R,
    decode: D,
    estimate: S,
    out: Result<SyncChartResult, String>,
) -> (loaded: Result<SongSummary, LoadFault>)
    requires
        analyzed(simfile, is_file, chart_index, load, lookup, decode, estimate, out),
    ensures
        !is_file ==> out is Err && out->Err_0@ == "simfile path is not a file: "@ + simfile.text@,
        is_file ==> {
            &&& call_ensures(load, (), loaded)
            &&& loaded is Ok ==> chart_analyzed(
                simfile,
                loaded->Ok_0,
                chart_index,
                lookup,
                decode,
                estimate,
                out,
            )
            &&& loaded matches Err(LoadFault::Read(e)) ==> out is Err && out->Err_0@ == "read "@
                + simfile.text@ + " failed: "@ + e@
            &&& loaded matches Err(LoadFault::Parse(e)) ==> out is Err && out->Err_0@
                == "rssp analyze failed: "@ + e@
        },
{
    choose|loaded: Result<SongSummary, LoadFault>| #[trigger]
        call_ensures(load, (), loaded) && match loaded {
            Err(_) => exists|e: Result<SongSummary, String>| #[trigger]
                loaded_as(simfile.text@, loaded, e) && e is Err && out is Err && out->Err_0@
                    == e->Err_0@,
            Ok(song) => chart_analyzed(
                simfile,
                song,
                chart_index,
                lookup,
                decode,
                estimate,
                out,
            ),
        }
}

} // verus!
