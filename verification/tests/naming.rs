use null_or_die::compat::ToleranceBand;
use null_or_die::model::{AnalyzeParams, BiasKernel, KernelTarget};
use null_or_die::naming::{
    chart_plot_stem, full_title, sanitize_file_stem, slugify_ascii, trace_file_name,
};
use null_or_die::number::Real;

fn num(v: f64) -> Real {
    Real { bits: v.to_bits() }
}

fn params() -> AnalyzeParams {
    AnalyzeParams {
        root_path: ".".to_string(),
        report_path: ".".to_string(),
        consider_null: true,
        consider_p9ms: true,
        tolerance: ToleranceBand {
            tolerance: num(4.0),
            nine_less: num(5.0),
            nine_more: num(13.0),
        },
        confidence_limit: num(0.8),
        fingerprint_ms: num(50.0),
        window_ms: num(10.0),
        step_ms: num(0.2),
        magic_offset_ms: num(0.0),
        kernel_target: KernelTarget::Digest,
        kernel_type: BiasKernel::Rising,
        full_spectrogram: false,
        to_paradigm: None,
    }
}

#[test]
fn titles_are_joined() {
    assert_eq!(full_title(" Song ", ""), "Song");
    assert_eq!(full_title("", " (Mix)"), "(Mix)");
    assert_eq!(full_title("Song", "(Mix)"), "Song (Mix)");
    assert_eq!(full_title("", ""), "");
}

#[test]
fn slugs_are_plain() {
    assert_eq!(slugify_ascii("My Song! (Mix)  ESP"), "my-song-mix-esp");
    assert_eq!(slugify_ascii("  --__a_b--\t-c__"), "a_b-c");
    assert_eq!(slugify_ascii("\u{65e5}\u{672c}"), "");
    assert_eq!(slugify_ascii("a - b"), "a-b");
    assert_eq!(slugify_ascii("A\u{b}B"), "ab");
}

#[test]
fn file_stems_are_plain() {
    assert_eq!(sanitize_file_stem("My Song.v2_(x)"), "My-Song.v2_-x");
    assert_eq!(sanitize_file_stem("--a----b--"), "a-b");
    assert_eq!(sanitize_file_stem("\u{e9}\u{e9}"), "");
    for raw in ["a  b", " - ", "x--y---z", "..-..", "\u{1f3b5} tune \u{1f3b5}"] {
        let mut out = String::new();
        for ch in raw.chars() {
            if ch.is_ascii_alphanumeric() || ch == '-' || ch == '_' || ch == '.' {
                out.push(ch);
            } else {
                out.push('-');
            }
        }
        while out.contains("--") {
            out = out.replace("--", "-");
        }
        assert_eq!(sanitize_file_stem(raw), out.trim_matches('-'));
    }
}

#[test]
fn traces_are_named_after_their_simfile() {
    assert_eq!(
        trace_file_name(Some("My Song"), 3),
        "null-or-die-trace-My-Song-chart3.json"
    );
    assert_eq!(trace_file_name(None, 0), "null-or-die-trace-simfile-chart0.json");
}

#[test]
fn plots_are_named_after_title_and_slot() {
    let stem = |title: &str, subtitle: &str, style: &str, bias: f64| {
        chart_plot_stem(title, subtitle, style, "Hard", 2, num(bias), &params())
    };
    assert_eq!(stem("Song", "Mix", "dance-single", 0.5), "song-mix-esp");
    assert_eq!(stem("Song", "Mix", "dance-single", 9.5), "song-mix-sh");
    assert_eq!(stem("Song", "", "other", 30.0), "song-e");
    assert_eq!(
        chart_plot_stem("\u{65e5}", "", "other", "None", 2, num(0.0), &params()),
        "chart-2"
    );
}

#[test]
fn slugs_are_stable() {
    for raw in ["  Max 300 -- Super", "_A_b- c-", "\u{e9}T\u{e9}!", "", "--__--"] {
        let slug = slugify_ascii(raw);
        assert_eq!(slugify_ascii(&slug), slug);
        assert_eq!(slugify_ascii(&raw.to_ascii_uppercase()), slug);
    }
    assert_eq!(slugify_ascii("  Max 300 -- Super"), "max-300-super");
}
