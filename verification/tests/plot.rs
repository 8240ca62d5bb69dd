use null_or_die::heat::{Count, Painter};
use null_or_die::model::{GraphOrientation, KernelTarget};
use null_or_die::number::Real;
use null_or_die::numeric::{Numerics, Place, Term};
use null_or_die::plot::{
    bias_plot_image, bias_to_x, biases_to_plot, check_bias_plot, check_heat_shape,
    collect_biases, heat_plot_image, nine_or_null_jobs, parse_bias, plot_report, rgba_png, run,
    BiasNode, PlotAxis, PlotCmd, PlotSource,
};
use null_or_die::song::LoadFault;

fn num(v: f64) -> Real {
    Real { bits: v.to_bits() }
}

fn float(v: Real) -> f64 {
    f64::from_bits(v.bits)
}

fn calc(t: Term) -> Real {
    num(match t {
        Term::Plus(a, b) => float(a) + float(b),
        Term::Minus(a, b) => float(a) - float(b),
        Term::Times(a, b) => float(a) * float(b),
        Term::Over(a, b) => float(a) / float(b),
        Term::Power(a, b) => float(a).powf(float(b)),
        Term::Fourth(a) => float(a).powi(4),
        Term::Root(a) => float(a).sqrt(),
        Term::Floor(a) => float(a).floor(),
        Term::Fused(a, b, c) => float(a).mul_add(float(b), float(c)),
        Term::Exponential(a) => float(a).exp(),
        Term::Cosine(a) => float(a).cos(),
        Term::Logarithm(a) => float(a).log2(),
        Term::Whole(n) => n as f64,
    })
}

fn place(p: u32, n: usize) -> Place {
    let rank = (f64::from(p) / 100.0) * (n - 1) as f64;
    Place {
        lo: rank.floor() as usize,
        hi: rank.ceil() as usize,
        frac: num(rank - rank.floor()),
    }
}

fn round(c: Count) -> u32 {
    match c {
        Count::Along(t, n) => (float(t) * f64::from(n)).round() as u32,
        Count::Against(t, n) => ((1.0 - float(t)) * f64::from(n)).round() as u32,
        Count::Blend(a, b, t) => {
            let t = float(t);
            (f64::from(a) * (1.0 - t) + f64::from(b) * t).round() as u32
        }
        Count::Fourths(t) => (float(t) * 4.0).floor() as u32,
    }
}

type Brush = Painter<fn(Term) -> Real, fn(u32, usize) -> Place, fn(Count) -> u32>;

fn painter() -> Brush {
    Painter {
        num: Numerics { calc, place },
        round,
    }
}

fn number(v: f64) -> BiasNode {
    BiasNode::Number(num(v))
}

fn at(image: &[u8], width: usize, x: usize, y: usize) -> [u8; 4] {
    let i = (y * width + x) * 4;
    [image[i], image[i + 1], image[i + 2], image[i + 3]]
}

#[test]
fn strings_count_where_they_read_as_numbers() {
    assert_eq!(parse_bias(&number(1.5)), Some(num(1.5)));
    assert_eq!(parse_bias(&BiasNode::Text(Some(num(-2.0)))), Some(num(-2.0)));
    assert_eq!(parse_bias(&BiasNode::Text(None)), None);
    assert_eq!(parse_bias(&BiasNode::Bare), None);
    assert_eq!(parse_bias(&BiasNode::List(vec![number(1.0)])), None);
    let doc = BiasNode::Record(vec![
        ("bias".to_string(), BiasNode::Text(Some(num(7.0)))),
        ("bias_ms".to_string(), BiasNode::Bare),
    ]);
    assert_eq!(biases_to_plot(&doc), Ok(vec![num(7.0)]));
}

#[test]
fn biases_are_collected_in_order() {
    let doc = BiasNode::Record(vec![
        (
            "a".to_string(),
            BiasNode::List(vec![
                BiasNode::Record(vec![("bias_result".to_string(), number(3.0))]),
                BiasNode::Bare,
                number(99.0),
            ]),
        ),
        ("bias".to_string(), number(2.0)),
        ("bias_ms".to_string(), number(1.0)),
        ("bias_result".to_string(), BiasNode::Text(None)),
        (
            "z".to_string(),
            BiasNode::Record(vec![("bias_ms".to_string(), number(4.0))]),
        ),
    ]);
    let mut out = Vec::new();
    collect_biases(&doc, &mut out);
    assert_eq!(out, vec![num(1.0), num(2.0), num(3.0), num(4.0)]);
    assert_eq!(biases_to_plot(&doc), Ok(out));
    assert_eq!(
        biases_to_plot(&BiasNode::List(vec![number(1.0)])),
        Err("no bias values found in JSON (bias_ms / bias_result / bias)".to_string())
    );
}

#[test]
fn bias_plots_mark_their_columns() {
    let image = bias_plot_image(5, 3, &vec![0, 2]);
    assert_eq!(image.len(), 60);
    for y in 0..3 {
        assert_eq!(at(&image, 5, 0, y), [220, 40, 40, 255]);
        assert_eq!(at(&image, 5, 1, y), [255, 255, 255, 255]);
        assert_eq!(at(&image, 5, 2, y), [220, 40, 40, 255]);
    }
    let bare = bias_plot_image(5, 1, &Vec::new());
    assert_eq!(at(&bare, 5, 2, 0), [96, 96, 96, 255]);
    assert_eq!(check_bias_plot(1, 1), Ok(()));
    assert_eq!(
        check_bias_plot(1, 0),
        Err("width and height must be > 0".to_string())
    );
}

#[test]
fn three_heat_plots_for_a_chart() {
    let jobs = nine_or_null_jobs("my-song", 5, KernelTarget::Accumulator).expect("jobs");
    let names: Vec<&str> = jobs.iter().map(|j| j.file_name.as_str()).collect();
    assert_eq!(
        names,
        vec![
            "bias-freqdomain-my-song.png",
            "bias-beatdigest-my-song.png",
            "bias-postkernel-my-song.png"
        ]
    );
    assert_eq!(jobs[0].percentiles, None);
    assert_eq!(jobs[1].percentiles, Some((10, 90)));
    assert_eq!(jobs[2].percentiles, Some((3, 97)));
    assert_eq!(jobs[2].source, PlotSource::PostKernel);
    assert_eq!(jobs[2].axis, PlotAxis::FreqsKhz);
    let digest = nine_or_null_jobs("s", 5, KernelTarget::Digest).expect("jobs");
    assert_eq!(digest[2].axis, PlotAxis::BeatIndices);
    assert_eq!(
        nine_or_null_jobs(" ", 5, KernelTarget::Digest).err(),
        Some("plot stem is empty".to_string())
    );
    assert_eq!(
        nine_or_null_jobs("s", 0, KernelTarget::Digest).err(),
        Some("plot has zero columns".to_string())
    );
}

#[test]
fn shapes_are_checked() {
    assert_eq!(check_heat_shape(6, 2, 3, 3, 2, 3), Ok(()));
    assert_eq!(
        check_heat_shape(6, 0, 3, 3, 2, 3),
        Err("plot matrix has invalid shape rows=0 cols=3".to_string())
    );
    assert_eq!(
        check_heat_shape(7, 2, 3, 3, 2, 3),
        Err("plot matrix shape mismatch: len=7 rows=2 cols=3".to_string())
    );
    assert_eq!(
        check_heat_shape(6, 2, 3, 4, 2, 3),
        Err("plot axis mismatch: times=4 y=2 conv=3 rows=2 cols=3".to_string())
    );
    assert_eq!(
        check_heat_shape(6, usize::MAX, 3, 4, 2, 3),
        Err(format!("plot matrix shape mismatch: len=6 rows={} cols=3", usize::MAX))
    );
}

#[test]
fn heat_plots_show_the_matrix_upside_down() {
    let colours: Vec<[u8; 3]> = (0..6u8).map(|i| [i, i, i]).collect();
    let far = 9;
    let image = heat_plot_image(
        &colours,
        2,
        3,
        3,
        2,
        GraphOrientation::Horizontal,
        far,
        &Vec::new(),
    );
    // Horizontal: the rows go to the right, the columns go up.
    assert_eq!(at(&image, 3, 0, 1), [0, 0, 0, 255]);
    assert_eq!(at(&image, 3, 2, 0), [4, 4, 4, 255]);
    let image = heat_plot_image(
        &colours,
        2,
        3,
        6,
        4,
        GraphOrientation::Vertical,
        5,
        &vec![(0, 3), (1, 3), (2, 3)],
    );
    assert_eq!(at(&image, 6, 0, 3), [255, 255, 255, 255]);
    assert_eq!(at(&image, 6, 3, 3), [1, 1, 1, 255]);
    assert_eq!(at(&image, 6, 0, 2), [0, 0, 0, 255]);
    assert_eq!(at(&image, 6, 4, 0), [5, 5, 5, 255]);
    assert_eq!(at(&image, 6, 5, 0), [220, 20, 20, 255]);
    let short = heat_plot_image(
        &colours,
        2,
        3,
        6,
        4,
        GraphOrientation::Vertical,
        5,
        &vec![(0, 3), (1, 3)],
    );
    assert_eq!(at(&short, 6, 0, 3), [0, 0, 0, 255]);
}

#[test]
fn every_cell_is_shown_in_a_large_plot() {
    let colours: Vec<[u8; 3]> = (0..35u8).map(|i| [i, 0, 1]).collect();
    let image = heat_plot_image(
        &colours,
        5,
        7,
        9,
        11,
        GraphOrientation::Horizontal,
        11,
        &Vec::new(),
    );
    let mut seen: Vec<u8> = image.chunks(4).map(|p| p[0]).collect();
    seen.sort();
    seen.dedup();
    assert_eq!(seen, (0..35u8).collect::<Vec<u8>>());
}

#[test]
fn biases_have_their_columns() {
    let p = painter();
    let x = |bias: f64, span: f64, width: u32| bias_to_x(&p, num(bias), num(span), width);
    assert_eq!(x(0.0, 50.0, 101), 50);
    assert_eq!(x(50.0, 50.0, 101), 100);
    assert_eq!(x(-500.0, 50.0, 101), 0);
    assert_eq!(x(10.0, 20.0, 5), 3);
    assert_eq!(x(25.0, 0.0, 101), 75);
    assert_eq!(x(f64::NAN, 50.0, 101), 0);
    assert_eq!(x(7.0, 50.0, 1), 0);
}

#[test]
fn plots_are_reported() {
    let report = plot_report("1", "in.json", "out.png", 10, 20, num(50.0), 3);
    assert_eq!(report.tool, "nod");
    assert_eq!(report.bias_count, 3);
    assert_eq!(report.height, 20);
    assert_eq!(report.output_png, "out.png");
}

#[test]
fn images_come_back_from_their_files() {
    let image = bias_plot_image(7, 4, &vec![1]);
    let file = rgba_png("x.png", 7, 4, &image).expect("a file");
    let mut reader = png::Decoder::new(std::io::Cursor::new(file))
        .read_info()
        .expect("a PNG file");
    let mut pixels = vec![0u8; 7 * 4 * 4];
    let info = reader.next_frame(&mut pixels).expect("a frame");
    assert_eq!((info.width, info.height), (7, 4));
    assert_eq!(info.color_type, png::ColorType::Rgba);
    assert_eq!(pixels, image);
    let error = rgba_png("x.png", 0, 4, &Vec::new()).expect_err("no pixels");
    assert!(error.starts_with("png header x.png failed: "), "{error}");
}

#[test]
fn documents_are_plotted() {
    let cmd = |width: u32| PlotCmd {
        input_json: "in.json".to_string(),
        output_png: "out.png".to_string(),
        width,
        height: 4,
        span_ms: num(20.0),
    };
    let load = || Ok(BiasNode::Record(vec![("bias".to_string(), number(3.0))]));
    let p = painter();
    let (file, report) = run(&p, "1", &cmd(7), load()).expect("a plot");
    assert_eq!(report.bias_count, 1);
    assert_eq!(report.tool, "nod");
    assert_eq!(
        file,
        rgba_png("out.png", 7, 4, &bias_plot_image(7, 4, &vec![3])).expect("a file")
    );
    assert_eq!(
        run(&p, "1", &cmd(0), load()).err(),
        Some("width and height must be > 0".to_string())
    );
    let unread = Err(LoadFault::Read("denied".to_string()));
    assert_eq!(
        run(&p, "1", &cmd(7), unread).err(),
        Some("read in.json failed: denied".to_string())
    );
    let odd = Err(LoadFault::Parse("cut off".to_string()));
    assert_eq!(
        run(&p, "1", &cmd(u32::MAX), odd).err(),
        Some("parse in.json failed: cut off".to_string())
    );
    let empty = Ok(BiasNode::List(Vec::new()));
    assert_eq!(
        run(&p, "1", &cmd(7), empty).err(),
        Some("no bias values found in JSON (bias_ms / bias_result / bias)".to_string())
    );
}
