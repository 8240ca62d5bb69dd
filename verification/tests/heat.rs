use null_or_die::heat::{
    axis_minmax, core_range, heat_plot, lerp, norm01, value_range, viridis,
    write_nine_or_null_plots, write_nine_or_null_plots_oriented, x_to_px, y_to_px, Count,
    HeatData, Painter,
};
use null_or_die::model::{GraphOrientation, KernelTarget};
use null_or_die::number::Real;
use null_or_die::numeric::{Numerics, Place, Term};
use null_or_die::plot::rgba_png;
use null_or_die::trace::BiasPlotData;

fn num(v: f64) -> Real {
    Real { bits: v.to_bits() }
}

fn nums(values: &[f64]) -> Vec<Real> {
    values.iter().map(|v| num(*v)).collect()
}

fn float(v: Real) -> f64 {
    f64::from_bits(v.bits)
}

fn calc(t: Term) -> Real {
    num(match t {
        Term::Plus(a, b) => float(a) + float(b),
        Term::Minus(a, b) => float(a) - float(b),
        Term::Times(a, b) => float(a) * float(b),
        Term::Over(a, b) => float(a) / float(b),
        Term::Power(a, b) => float(a).powf(float(b)),
        Term::Fourth(a) => float(a).powi(4),
        Term::Root(a) => float(a).sqrt(),
        Term::Floor(a) => float(a).floor(),
        Term::Fused(a, b, c) => float(a).mul_add(float(b), float(c)),
        Term::Exponential(a) => float(a).exp(),
        Term::Cosine(a) => float(a).cos(),
        Term::Logarithm(a) => float(a).log2(),
        Term::Whole(n) => n as f64,
    })
}

fn place(p: u32, n: usize) -> Place {
    let rank = (f64::from(p) / 100.0) * (n - 1) as f64;
    Place {
        lo: rank.floor() as usize,
        hi: rank.ceil() as usize,
        frac: num(rank - rank.floor()),
    }
}

fn round(c: Count) -> u32 {
    match c {
        Count::Along(t, n) => (float(t) * f64::from(n)).round() as u32,
        Count::Against(t, n) => ((1.0 - float(t)) * f64::from(n)).round() as u32,
        Count::Blend(a, b, t) => {
            let t = float(t);
            (f64::from(a) * (1.0 - t) + f64::from(b) * t).round() as u32
        }
        Count::Fourths(t) => (float(t) * 4.0).floor() as u32,
    }
}

type Brush = Painter<fn(Term) -> Real, fn(u32, usize) -> Place, fn(Count) -> u32>;

fn painter() -> Brush {
    Painter {
        num: Numerics { calc, place },
        round,
    }
}

fn at(image: &[u8], width: usize, x: usize, y: usize) -> [u8; 4] {
    let i = (y * width + x) * 4;
    [image[i], image[i + 1], image[i + 2], image[i + 3]]
}

#[test]
fn cores_leave_out_the_edges() {
    assert_eq!(core_range(10, 2), (2, 8));
    assert_eq!(core_range(3, 2), (1, 2));
    assert_eq!(core_range(0, 2), (0, 0));
}

#[test]
fn ranges_of_values() {
    let n = painter().num;
    let values = nums(&[3.0, f64::NAN, 1.0]);
    assert_eq!(axis_minmax(&n, &Vec::new()), (num(0.0), num(1.0)));
    assert_eq!(axis_minmax(&n, &values), (num(1.0), num(3.0)));
    assert_eq!(axis_minmax(&n, &nums(&[2.0])), (num(1.0), num(3.0)));
    let values = nums(&[0.0, 1.0, 2.0, 3.0, 4.0]);
    assert_eq!(value_range(&n, &values, Some((25, 75))), (num(1.0), num(3.0)));
    assert_eq!(value_range(&n, &values, Some((50, 50))), (num(0.0), num(4.0)));
    assert_eq!(value_range(&n, &values, None), (num(0.0), num(4.0)));
    assert_eq!(value_range(&n, &Vec::new(), Some((3, 97))), (num(0.0), num(1.0)));
}

#[test]
fn shares_are_units() {
    let n = painter().num;
    let share = |v: f64, lo: f64, hi: f64| float(norm01(&n, num(v), num(lo), num(hi)));
    assert_eq!(share(2.5, 0.0, 10.0), 0.25);
    assert_eq!(share(-1.0, 0.0, 10.0), 0.0);
    assert_eq!(share(11.0, 0.0, 10.0), 1.0);
    assert_eq!(share(7.0, 3.0, 3.0), 0.5);
    assert_eq!(share(7.0, 0.0, f64::INFINITY), 0.5);
    assert!(share(f64::NAN, 0.0, 1.0).is_nan());
    assert_eq!(float(lerp(&n, num(2.0), num(6.0), num(0.25))), 3.0);
}

#[test]
fn colours_run_from_violet_to_yellow() {
    let p = painter();
    assert_eq!(viridis(&p, num(0.0)), [68, 1, 84]);
    assert_eq!(viridis(&p, num(0.25)), [59, 82, 139]);
    assert_eq!(viridis(&p, num(0.5)), [33, 145, 140]);
    assert_eq!(viridis(&p, num(0.75)), [94, 201, 98]);
    assert_eq!(viridis(&p, num(1.0)), [253, 231, 37]);
    assert_eq!(viridis(&p, num(3.0)), [253, 231, 37]);
    assert_eq!(viridis(&p, num(0.125)), [64, 42, 112]);
}

#[test]
fn values_have_their_pixels() {
    let p = painter();
    let px = |v: f64, size: u32| {
        (
            x_to_px(&p, num(v), num(0.0), num(10.0), size),
            y_to_px(&p, num(v), num(0.0), num(10.0), size),
        )
    };
    assert_eq!(px(2.5, 101), (25, 75));
    assert_eq!(px(12.0, 101), (100, 0));
    assert_eq!(px(5.0, 1), (0, 0));
}

fn data<'a>(matrix: &'a Vec<Real>, times: &'a Vec<Real>, y_axis: &'a Vec<Real>) -> HeatData<'a> {
    HeatData {
        matrix,
        rows: 2,
        cols: 3,
        times_ms: times,
        y_axis,
        convolution: times,
        edge_discard: 0,
        bias_ms: num(1.0),
        percentiles: None,
    }
}

#[test]
fn a_heat_plot_shows_cells_mark_and_curve() {
    let p = painter();
    let matrix = nums(&[0.0, 1.0, 2.0, 2.0, 3.0, 4.0]);
    let times = nums(&[-1.0, 0.0, 1.0]);
    let axis = nums(&[0.0, 1.0]);
    let job = data(&matrix, &times, &axis);
    let image = heat_plot(&p, &job, 9, 8, GraphOrientation::Vertical).expect("an image");
    assert_eq!(at(&image, 9, 0, 0), [33, 145, 140, 255]);
    assert_eq!(at(&image, 9, 3, 0), [94, 201, 98, 255]);
    assert_eq!(at(&image, 9, 8, 0), [220, 20, 20, 255]);
    assert_eq!(at(&image, 9, 0, 7), [68, 1, 84, 255]);
    assert_eq!(at(&image, 9, 0, 6), [255, 255, 255, 255]);
    assert_eq!(at(&image, 9, 8, 1), [255, 255, 255, 255]);
    let image = heat_plot(&p, &job, 8, 9, GraphOrientation::Horizontal).expect("an image");
    assert_eq!(at(&image, 8, 0, 0), [220, 20, 20, 255]);
    assert_eq!(at(&image, 8, 0, 8), [68, 1, 84, 255]);
    assert_eq!(at(&image, 8, 7, 8), [33, 145, 140, 255]);
    assert_eq!(at(&image, 8, 1, 8), [255, 255, 255, 255]);
    let short = nums(&[1.0]);
    let odd = heat_plot(&p, &data(&short, &times, &axis), 9, 8, GraphOrientation::Vertical);
    assert_eq!(
        odd.err(),
        Some("plot matrix shape mismatch: len=1 rows=2 cols=3".to_string())
    );
    let odd = heat_plot(&p, &data(&matrix, &times, &short), 9, 8, GraphOrientation::Vertical);
    assert_eq!(
        odd.err(),
        Some("plot axis mismatch: times=3 y=1 conv=3 rows=2 cols=3".to_string())
    );
}

fn estimate() -> BiasPlotData {
    BiasPlotData {
        freq_rows: 2,
        digest_rows: 1,
        cols: 3,
        post_rows: 1,
        post_target: KernelTarget::Digest,
        freq_domain: nums(&[0.0, 1.0, 2.0, 3.0, 4.0, 5.0]),
        beat_digest: nums(&[3.0, 2.0, 1.0]),
        post_kernel: nums(&[6.0, 5.0, 4.0]),
        convolution: nums(&[1.0, 5.0, 2.0]),
        times_ms: nums(&[-1.0, 0.0, 1.0]),
        freqs_khz: nums(&[0.0, 0.1]),
        beat_indices: nums(&[0.0]),
        bias_ms: num(0.5),
        edge_discard: 2,
    }
}

#[test]
fn the_plots_of_an_estimate_are_drawn() {
    let p = painter();
    let plot = estimate();
    let drawn = write_nine_or_null_plots(&p, "song-1", &plot).expect("plots");
    assert_eq!(drawn.fault, None);
    let files = &drawn.files;
    let names: Vec<&str> = files.iter().map(|f| f.name.as_str()).collect();
    assert_eq!(
        names,
        vec![
            "bias-freqdomain-song-1.png",
            "bias-beatdigest-song-1.png",
            "bias-postkernel-song-1.png"
        ]
    );
    let job = HeatData {
        matrix: &plot.post_kernel,
        rows: 1,
        cols: 3,
        times_ms: &plot.times_ms,
        y_axis: &plot.beat_indices,
        convolution: &plot.convolution,
        edge_discard: 2,
        bias_ms: plot.bias_ms,
        percentiles: Some((3, 97)),
    };
    let image = heat_plot(&p, &job, 600, 600, GraphOrientation::Vertical).expect("an image");
    assert_eq!(files[2].bytes, rgba_png("x", 600, 600, &image).expect("a file"));
}

#[test]
fn plots_that_fail_say_why() {
    let p = painter();
    let upright = GraphOrientation::Vertical;
    let go = |stem: &str, plot: &BiasPlotData| {
        write_nine_or_null_plots_oriented(&p, stem, plot, upright)
    };
    assert_eq!(go(" ", &estimate()).err(), Some("plot stem is empty".to_string()));
    let mut odd = estimate();
    odd.cols = 0;
    assert_eq!(go("s", &odd).err(), Some("plot has zero columns".to_string()));
    let mut odd = estimate();
    odd.freq_rows = 0;
    let drawn = go("s", &odd).expect("plots");
    assert!(drawn.files.is_empty());
    assert_eq!(
        drawn.fault,
        Some("plot matrix has invalid shape rows=0 cols=3".to_string())
    );
    let mut odd = estimate();
    odd.digest_rows = 0;
    let drawn = go("s", &odd).expect("plots");
    assert_eq!(drawn.files.len(), 1);
    assert_eq!(drawn.files[0].name, "bias-freqdomain-s.png");
    assert_eq!(
        drawn.fault,
        Some("plot matrix has invalid shape rows=0 cols=3".to_string())
    );
}

#[test]
fn estimates_are_drawn_in_full() {
    let along = GraphOrientation::Horizontal;
    let drawn = write_nine_or_null_plots_oriented(&painter(), "s", &estimate(), along);
    let drawn = drawn.expect("plots");
    assert_eq!((drawn.files.len(), drawn.fault), (3, None));
}
