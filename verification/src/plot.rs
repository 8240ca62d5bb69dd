//! Plots: which ones there are, and what their images show.

use crate::heat;
use crate::heat::{Count, Ink, Painter};
use crate::matrix;
use crate::model::{GraphOrientation, KernelTarget, PlotReport};
use crate::number;
use crate::number::Real;
use crate::numeric::{Numerics, Place, Term};
use crate::raster;
use crate::raster::{draw_hline, draw_line, draw_vline, set_pixel};
use crate::song::LoadFault;
use crate::stats;
use crate::stats::ONE;
use crate::text;
use crate::text::{decimal_text, join2, join3, join4, same_text, trim};
use vstd::prelude::*;

verus! {

// ---------------------------------------------------------------------------
// Bias values in a document
// ---------------------------------------------------------------------------

/// A JSON document, as far as bias values are sought in it.
pub enum BiasNode {
    Number(Real),
    /// A string, of which only the number matters that it reads as, if any.
    Text(Option<Real>),
    /// What is neither a number nor a string, and holds nothing.
    Bare,
    List(Vec<BiasNode>),
    Record(Vec<(String, BiasNode)>),
}

/// The bias that a node stands for: a number does, and a string that reads as one.
pub open spec fn node_number(node: BiasNode) -> Option<Real> {
    match node {
        BiasNode::Number(v) => Some(v),
        BiasNode::Text(v) => v,
        _ => None,
    }
}

/// The bias that a node stands for, if it stands for one.
pub fn parse_bias(node: &BiasNode) -> (out: Option<Real>)
    ensures
        out == node_number(*node),
{
    match node {
        BiasNode::Number(v) => Some(*v),
        BiasNode::Text(v) => *v,
        _ => None,
    }
}

/// The number under `key`, if the record has such an entry and it stands for one.
pub open spec fn number_under(entries: Seq<(String, BiasNode)>, key: Seq<char>) -> Option<Real>
    decreases entries.len(),
{
    if entries.len() == 0 {
        None
    } else if entries[0].0@ == key {
        node_number(entries[0].1)
    } else {
        number_under(entries.drop_first(), key)
    }
}

/// The items of an option, none or one.
pub open spec fn listed(v: Option<Real>) -> Seq<Real> {
    match v {
        Some(x) => seq![x],
        None => Seq::empty(),
    }
}

/// The bias values that a record itself holds.
pub open spec fn own_biases(entries: Seq<(String, BiasNode)>) -> Seq<Real> {
    listed(number_under(entries, "bias_ms"@)) + listed(number_under(entries, "bias_result"@))
        + listed(number_under(entries, "bias"@))
}

/// The bias values in a document: those of a record before those of its entries,
/// and otherwise in the order of the document.
pub open spec fn biases_in(node: BiasNode) -> Seq<Real>
    decreases node, 0nat,
{
    match node {
        BiasNode::Number(_) | BiasNode::Text(_) | BiasNode::Bare => Seq::empty(),
        BiasNode::List(items) => biases_in_items(items@, items@.len()),
        BiasNode::Record(entries) => own_biases(entries@) + biases_in_entries(
            entries@,
            entries@.len(),
        ),
    }
}

/// The bias values in the first `n` items.
pub open spec fn biases_in_items(items: Seq<BiasNode>, n: nat) -> Seq<Real>
    decreases items, n,
{
    if n == 0 || n > items.len() {
        Seq::empty()
    } else {
        biases_in_items(items, (n - 1) as nat) + biases_in(items[n - 1])
    }
}

/// The bias values in the first `n` entries.
pub open spec fn biases_in_entries(entries: Seq<(String, BiasNode)>, n: nat) -> Seq<Real>
    decreases entries, n,
{
    if n == 0 || n > entries.len() {
        Seq::empty()
    } else {
        biases_in_entries(entries, (n - 1) as nat) + biases_in(entries[n - 1].1)
    }
}

fn find_number(entries: &Vec<(String, BiasNode)>, key: &str) -> (out: Option<Real>)
    ensures
        out == number_under(entries@, key@),
{
    let mut i: usize = 0;
    assert(entries@.skip(0) =~= entries@);
    while i < entries.len()
        invariant
            i <= entries.len(),
            number_under(entries@, key@) == number_under(entries@.skip(i as int), key@),
        decreases entries.len() - i,
    {
        let ghost rest = entries@.skip(i as int);
        assert(rest[0] == entries@[i as int]);
        assert(rest.drop_first() =~= entries@.skip(i + 1));
        if same_text(&entries[i].0, key) {
            return parse_bias(&entries[i].1);
        }
        i += 1;
    }
    None
}

fn push_number(out: &mut Vec<Real>, v: Option<Real>)
    ensures
        final(out)@ == old(out)@ + listed(v),
{
    let ghost before = out@;
    if let Some(x) = v {
        out.push(x);
    }
    assert(out@ =~= before + listed(v));
}

/// Appends the bias values in the document to `out`.
pub fn collect_biases(node: &BiasNode, out: &mut Vec<Real>)
    ensures
        final(out)@ == old(out)@ + biases_in(*node),
    decreases node,
{
    let ghost before = out@;
    match node {
        BiasNode::Number(_) | BiasNode::Text(_) | BiasNode::Bare => {
            assert(out@ =~= before + biases_in(*node));
        },
        BiasNode::List(items) => {
            let mut i: usize = 0;
            while i < items.len()
                invariant
                    i <= items.len(),
                    *node == BiasNode::List(*items),
                    out@ =~= before + biases_in_items(items@, i as nat),
                decreases items.len() - i,
            {
                assert(decreases_to!(*node => node->List_0));
                assert(decreases_to!(*items => items@));
                assert(decreases_to!(items@ => items@[i as int]));
                collect_biases(&items[i], out);
                i += 1;
            }
        },
        BiasNode::Record(entries) => {
            push_number(out, find_number(entries, "bias_ms"));
            push_number(out, find_number(entries, "bias_result"));
            push_number(out, find_number(entries, "bias"));
            let ghost own = own_biases(entries@);
            assert(out@ =~= before + own);
            let mut i: usize = 0;
            while i < entries.len()
                invariant
                    i <= entries.len(),
                    *node == BiasNode::Record(*entries),
                    own == own_biases(entries@),
                    out@ =~= before + own + biases_in_entries(entries@, i as nat),
                decreases entries.len() - i,
            {
                assert(decreases_to!(*node => node->Record_0));
                assert(decreases_to!(*entries => entries@));
                assert(decreases_to!(entries@ => entries@[i as int]));
                assert(decreases_to!(entries@[i as int] => entries@[i as int].1));
                collect_biases(&entries[i].1, out);
                i += 1;
            }
            assert(out@ =~= before + biases_in(*node));
        },
    }
}

// ---------------------------------------------------------------------------
// The plot of bias values
// ---------------------------------------------------------------------------

/// A white image.
fn white_image(width: u32, height: u32) -> (image: Vec<u8>)
    requires
        raster::addressable(width, height),
    ensures
        raster::frames(image@, width, height),
        forall|x: int, y: int|
            raster::in_frame(width, height, x, y) ==> #[trigger] raster::pixel(
                image@,
                width as int,
                x,
                y,
            ) == seq![255u8, 255, 255, 255],
{
    filled_image(width, height, 255)
}

/// An image all of whose bytes are `byte`.
fn filled_image(width: u32, height: u32, byte: u8) -> (image: Vec<u8>)
    requires
        raster::addressable(width, height),
    ensures
        raster::frames(image@, width, height),
        forall|x: int, y: int|
            raster::in_frame(width, height, x, y) ==> #[trigger] raster::pixel(
                image@,
                width as int,
                x,
                y,
            ) == seq![byte, byte, byte, byte],
{
    assert(0 <= width * height) by (nonlinear_arith)
        requires
            0 <= width,
            0 <= height,
    ;
    let size: usize = width as usize * height as usize * 4;
    let mut image: Vec<u8> = Vec::new();
    let mut i: usize = 0;
    while i < size
        invariant
            i <= size,
            image.len() == i,
            forall|k: int| 0 <= k < i ==> image@[k] == byte,
        decreases size - i,
    {
        image.push(byte);
        i += 1;
    }
    proof {
        assert forall|x: int, y: int| raster::in_frame(width, height, x, y) implies (
        #[trigger] raster::pixel(image@, width as int, x, y)) == seq![byte, byte, byte, byte] by {
            raster::lemma_offset(width as int, height as int, x, y);
            assert(raster::pixel(image@, width as int, x, y) =~= seq![byte, byte, byte, byte]);
        }
    }
    image
}

/// What the plot of bias values shows in a column: a red mark, the grey middle,
/// or white.
pub open spec fn bias_column(width: u32, marks: Seq<u32>, x: int) -> Seq<u8> {
    if marks.contains(x as u32) {
        seq![220u8, 40, 40, 255]
    } else if x == width / 2 {
        seq![96u8, 96, 96, 255]
    } else {
        seq![255u8, 255, 255, 255]
    }
}

/// The image of bias values, each of which marks a column.
pub fn bias_plot_image(width: u32, height: u32, marks: &Vec<u32>) -> (image: Vec<u8>)
    requires
        width > 0,
        raster::addressable(width, height),
        forall|i: int| 0 <= i < marks.len() ==> #[trigger] marks@[i] < width,
    ensures
        raster::frames(image@, width, height),
        forall|x: int, y: int|
            raster::in_frame(width, height, x, y) ==> #[trigger] raster::pixel(
                image@,
                width as int,
                x,
                y,
            ) == bias_column(width, marks@, x),
{
    let mut image: Vec<u8> = white_image(width, height);
    draw_vline(&mut image, width, height, width / 2, [96, 96, 96, 255]);
    assert([96u8, 96, 96, 255]@ =~= seq![96u8, 96, 96, 255]);
    let mut i: usize = 0;
    assert(marks@.take(0) =~= Seq::<u32>::empty());
    while i < marks.len()
        invariant
            i <= marks.len(),
            forall|k: int| 0 <= k < marks.len() ==> #[trigger] marks@[k] < width,
            raster::frames(image@, width, height),
            forall|x: int, y: int|
                raster::in_frame(width, height, x, y) ==> #[trigger] raster::pixel(
                    image@,
                    width as int,
                    x,
                    y,
                ) == bias_column(width, marks@.take(i as int), x),
        decreases marks.len() - i,
    {
        let ghost before = image@;
        let ghost few = marks@.take(i as int);
        let ghost more = marks@.take(i + 1);
        draw_vline(&mut image, width, height, marks[i], [220, 40, 40, 255]);
        proof {
            assert([220u8, 40, 40, 255]@ =~= seq![220u8, 40, 40, 255]);
            assert(more =~= few.push(marks@[i as int]));
            assert forall|x: int, y: int| raster::in_frame(width, height, x, y) implies (
            #[trigger] raster::pixel(image@, width as int, x, y)) == bias_column(
                width,
                more,
                x,
            ) by {
                assert(raster::pixel(before, width as int, x, y) == bias_column(width, few, x));
                lemma_push_contains(few, marks@[i as int], x as u32);
            }
        }
        i += 1;
    }
    assert(marks@.take(i as int) =~= marks@);
    image
}

proof fn lemma_push_contains(s: Seq<u32>, last: u32, v: u32)
    ensures
        s.push(last).contains(v) == (s.contains(v) || last == v),
{
    let t = s.push(last);
    if s.contains(v) {
        let k = choose|k: int| 0 <= k < s.len() && s[k] == v;
        assert(t[k] == v);
    }
    assert(t[s.len() as int] == last);
}

/// Why a plot of bias values cannot be drawn: a frame without pixels, or no values.
pub fn check_bias_plot(width: u32, height: u32) -> (out: Result<(), String>)
    ensures
        out is Err <==> width == 0 || height == 0,
        out matches Err(e) ==> e@ == "width and height must be > 0"@,
{
    if width == 0 || height == 0 {
        Err("width and height must be > 0".to_owned())
    } else {
        Ok(())
    }
}

/// The bias values of a document, or why there is nothing to plot.
pub fn biases_to_plot(node: &BiasNode) -> (out: Result<Vec<Real>, String>)
    ensures
        match out {
            Ok(values) => values@ == biases_in(*node) && values@.len() > 0,
            Err(e) => biases_in(*node).len() == 0 && e@
                == "no bias values found in JSON (bias_ms / bias_result / bias)"@,
        },
{
    let mut values: Vec<Real> = Vec::new();
    collect_biases(node, &mut values);
    assert(Seq::<Real>::empty() + biases_in(*node) =~= biases_in(*node));
    if values.len() == 0 {
        Err("no bias values found in JSON (bias_ms / bias_result / bias)".to_owned())
    } else {
        Ok(values)
    }
}

// ---------------------------------------------------------------------------
// The heat plots
// ---------------------------------------------------------------------------

/// The matrices that heat plots are drawn of.
#[derive(Debug, Clone, Copy, PartialEq, Eq, Structural)]
pub enum PlotSource {
    FreqDomain,
    BeatDigest,
    PostKernel,
}

/// The axes that the rows of a heat plot are read on.
#[derive(Debug, Clone, Copy, PartialEq, Eq, Structural)]
pub enum PlotAxis {
    FreqsKhz,
    BeatIndices,
}

/// One heat plot: its file, what it shows, and the percentiles that bound its colours.
#[derive(Debug, Clone)]
pub struct HeatJob {
    pub file_name: String,
    pub source: PlotSource,
    pub axis: PlotAxis,
    pub percentiles: Option<(u32, u32)>,
}

/// The width and the height of a heat plot.
pub const HEAT_SIDE: u32 = 600;

/// The heat plots of a chart, in the order in which they are written.
pub fn nine_or_null_jobs(stem: &str, cols: usize, post_target: KernelTarget) -> (out: Result<
    Vec<HeatJob>,
    String,
>)
    ensures
        match out {
            Err(e) => if text::trimmed(stem@).len() == 0 {
                e@ == "plot stem is empty"@
            } else {
                cols == 0 && e@ == "plot has zero columns"@
            },
            Ok(jobs) => text::trimmed(stem@).len() > 0 && cols > 0 && heat_jobs(
                stem@,
                post_target,
                jobs@,
            ),
        },
{
    if trim(stem).as_str().is_empty() {
        return Err("plot stem is empty".to_owned());
    }
    if cols == 0 {
        return Err("plot has zero columns".to_owned());
    }
    let mut jobs: Vec<HeatJob> = Vec::new();
    jobs.push(
        HeatJob {
            file_name: join3("bias-freqdomain-", stem, ".png"),
            source: PlotSource::FreqDomain,
            axis: PlotAxis::FreqsKhz,
            percentiles: None,
        },
    );
    jobs.push(
        HeatJob {
            file_name: join3("bias-beatdigest-", stem, ".png"),
            source: PlotSource::BeatDigest,
            axis: PlotAxis::BeatIndices,
            percentiles: Some((10, 90)),
        },
    );
    jobs.push(
        HeatJob {
            file_name: join3("bias-postkernel-", stem, ".png"),
            source: PlotSource::PostKernel,
            axis: if post_target == KernelTarget::Accumulator {
                PlotAxis::FreqsKhz
            } else {
                PlotAxis::BeatIndices
            },
            percentiles: Some((3, 97)),
        },
    );
    Ok(jobs)
}

/// What is said of a number: the label and its digits.
pub open spec fn labelled(label: Seq<char>, n: int) -> Seq<char> {
    label + text::decimal(n as nat)
}

fn labelled_text(label: &str, n: usize) -> (out: String)
    ensures
        out@ == labelled(label@, n as int),
{
    join2(label, &decimal_text(n))
}

/// A count, at most the largest that a machine word holds.
pub open spec fn capped(n: int) -> int {
    if n <= usize::MAX {
        n
    } else {
        usize::MAX as int
    }
}

/// Why a heat plot has no consistent shape, if it has none.
pub open spec fn heat_shape_fault(
    matrix: int,
    rows: int,
    cols: int,
    times: int,
    y_axis: int,
    convolution: int,
) -> Option<Seq<char>> {
    if rows == 0 || cols == 0 {
        Some(labelled("plot matrix has invalid shape rows="@, rows) + labelled(" cols="@, cols))
    } else if matrix != capped(rows * cols) {
        Some(
            labelled("plot matrix shape mismatch: len="@, matrix) + labelled(" rows="@, rows)
                + labelled(" cols="@, cols),
        )
    } else if times != cols || y_axis != rows || convolution != cols {
        Some(
            labelled("plot axis mismatch: times="@, times) + labelled(" y="@, y_axis) + labelled(
                " conv="@,
                convolution,
            ) + labelled(" rows="@, rows) + labelled(" cols="@, cols),
        )
    } else {
        None
    }
}

/// Checks the lengths of a matrix, of its axes and of the convolution against
/// the number of rows and columns.
pub fn check_heat_shape(
    matrix: usize,
    rows: usize,
    cols: usize,
    times: usize,
    y_axis: usize,
    convolution: usize,
) -> (out: Result<(), String>)
    ensures
        match out {
            Ok(()) => heat_shape_fault(
                matrix as int,
                rows as int,
                cols as int,
                times as int,
                y_axis as int,
                convolution as int,
            ) is None,
            Err(e) => heat_shape_fault(
                matrix as int,
                rows as int,
                cols as int,
                times as int,
                y_axis as int,
                convolution as int,
            ) == Some(e@),
        },
{
    if rows == 0 || cols == 0 {
        return Err(
            join2(
                &labelled_text("plot matrix has invalid shape rows=", rows),
                &labelled_text(" cols=", cols),
            ),
        );
    }
    let size: usize = match rows.checked_mul(cols) {
        Some(size) => size,
        None => usize::MAX,
    };
    if matrix != size {
        return Err(
            join3(
                &labelled_text("plot matrix shape mismatch: len=", matrix),
                &labelled_text(" rows=", rows),
                &labelled_text(" cols=", cols),
            ),
        );
    }
    if times != cols || y_axis != rows || convolution != cols {
        let ends: String = join2(&labelled_text(" rows=", rows), &labelled_text(" cols=", cols));
        let out: String = join4(
            &labelled_text("plot axis mismatch: times=", times),
            &labelled_text(" y=", y_axis),
            &labelled_text(" conv=", convolution),
            &ends,
        );
        assert(out@ =~= labelled("plot axis mismatch: times="@, times as int) + labelled(
            " y="@,
            y_axis as int,
        ) + labelled(" conv="@, convolution as int) + labelled(" rows="@, rows as int) + labelled(
            " cols="@,
            cols as int,
        ));
        return Err(out);
    }
    Ok(())
}

/// Whether a list of heat plots is the one for a stem and a target.
pub open spec fn heat_jobs(stem: Seq<char>, target: KernelTarget, jobs: Seq<HeatJob>) -> bool {
    &&& jobs.len() == 3
    &&& jobs[0].file_name@ == "bias-freqdomain-"@ + stem + ".png"@
    &&& jobs[0].source == PlotSource::FreqDomain
    &&& jobs[0].axis == PlotAxis::FreqsKhz
    &&& jobs[0].percentiles is None
    &&& jobs[1].file_name@ == "bias-beatdigest-"@ + stem + ".png"@
    &&& jobs[1].source == PlotSource::BeatDigest
    &&& jobs[1].axis == PlotAxis::BeatIndices
    &&& jobs[1].percentiles == Some((10u32, 90u32))
    &&& jobs[2].file_name@ == "bias-postkernel-"@ + stem + ".png"@
    &&& jobs[2].source == PlotSource::PostKernel
    &&& jobs[2].axis == (if target == KernelTarget::Accumulator {
        PlotAxis::FreqsKhz
    } else {
        PlotAxis::BeatIndices
    })
    &&& jobs[2].percentiles == Some((3u32, 97u32))
}

/// No two of the heat plots of a chart share a file.
pub proof fn heat_plots_have_files_of_their_own(
    stem: Seq<char>,
    target: KernelTarget,
    jobs: Seq<HeatJob>,
    i: int,
    j: int,
)
    requires
        heat_jobs(stem, target, jobs),
        0 <= i < j < 3,
    ensures
        jobs[i].file_name@ != jobs[j].file_name@,
{
    reveal_strlit("bias-freqdomain-");
    reveal_strlit("bias-beatdigest-");
    reveal_strlit("bias-postkernel-");
    assert(jobs[0].file_name@[5] == 'f');
    assert(jobs[1].file_name@[5] == 'b');
    assert(jobs[2].file_name@[5] == 'p');
}

/// The position among `count` cells that a place among `size` pixels shows.
pub open spec fn cell_at(place: int, count: int, size: int) -> int {
    place * count / size
}

/// The row and the column of the matrix that a pixel shows. Rows are counted
/// from the bottom of a vertical plot and from the left of a horizontal one.
pub open spec fn heat_cell(
    orientation: GraphOrientation,
    rows: int,
    cols: int,
    width: int,
    height: int,
    x: int,
    y: int,
) -> (int, int) {
    if orientation == GraphOrientation::Vertical {
        (cell_at(height - 1 - y, rows, height), cell_at(x, cols, width))
    } else {
        (cell_at(x, rows, width), cell_at(height - 1 - y, cols, height))
    }
}

/// A pixel shows a cell of the matrix, and the cells appear in their order.
pub proof fn pixels_show_cells(place: int, later: int, count: int, size: int)
    requires
        0 <= place <= later < size,
        0 < count,
    ensures
        0 <= cell_at(place, count, size) < count,
        cell_at(place, count, size) <= cell_at(later, count, size),
{
    assert(0 <= place * count <= later * count < size * count) by (nonlinear_arith)
        requires
            0 <= place <= later < size,
            0 < count,
    ;
    vstd::arithmetic::div_mod::lemma_div_is_ordered(place * count, later * count, size);
    vstd::arithmetic::div_mod::lemma_div_pos_is_pos(place * count, size);
    vstd::arithmetic::div_mod::lemma_multiply_divide_lt(place * count, size, count);
}

/// A plot that is at least as large as the matrix shows every cell: here is the
/// first pixel that shows it.
pub proof fn large_plots_show_every_cell(cell: int, count: int, size: int) -> (place: int)
    requires
        0 <= cell < count <= size,
    ensures
        0 <= place < size,
        cell_at(place, count, size) == cell,
{
    let place = (cell * size + count - 1) / count;
    vstd::arithmetic::div_mod::lemma_fundamental_div_mod(cell * size + count - 1, count);
    vstd::arithmetic::div_mod::lemma_mod_bound(cell * size + count - 1, count);
    assert(cell * size <= place * count <= cell * size + count - 1) by (nonlinear_arith)
        requires
            cell * size + count - 1 == count * place + (cell * size + count - 1) % count,
            0 <= (cell * size + count - 1) % count < count,
    ;
    assert(0 <= place < size) by (nonlinear_arith)
        requires
            0 <= cell < count <= size,
            cell * size <= place * count <= cell * size + count - 1,
    ;
    vstd::arithmetic::div_mod::lemma_fundamental_div_mod_converse(
        place * count,
        size,
        cell,
        place * count - cell * size,
    );
    place
}

fn cell_of(place: u32, count: usize, size: u32) -> (cell: usize)
    requires
        place < size,
        0 < count,
    ensures
        cell == cell_at(place as int, count as int, size as int),
        cell < count,
{
    proof {
        pixels_show_cells(place as int, place as int, count as int, size as int);
        assert(0 <= place * count <= 0xffff_ffff * 0xffff_ffff_ffff_ffff) by (nonlinear_arith)
            requires
                0 <= place <= 0xffff_ffff,
                0 <= count <= 0xffff_ffff_ffff_ffff,
        ;
    }
    (place as u128 * count as u128 / size as u128) as usize
}

/// The colour of a cell, opaque.
pub open spec fn cell_colour(colours: Seq<[u8; 3]>, cols: int, cell: (int, int)) -> Seq<u8> {
    colours[cell.0 * cols + cell.1]@.push(255)
}

/// The matrix as an image, each of its cells in its colour.
pub fn heat_image(
    colours: &Vec<[u8; 3]>,
    rows: usize,
    cols: usize,
    width: u32,
    height: u32,
    orientation: GraphOrientation,
) -> (image: Vec<u8>)
    requires
        rows > 0,
        cols > 0,
        colours.len() == rows * cols,
        raster::addressable(width, height),
    ensures
        raster::frames(image@, width, height),
        forall|x: int, y: int|
            raster::in_frame(width, height, x, y) ==> #[trigger] raster::pixel(
                image@,
                width as int,
                x,
                y,
            ) == cell_colour(
                colours@,
                cols as int,
                heat_cell(
                    orientation,
                    rows as int,
                    cols as int,
                    width as int,
                    height as int,
                    x,
                    y,
                ),
            ),
{
    let mut image: Vec<u8> = filled_image(width, height, 0);
    let mut y: u32 = 0;
    while y < height
        invariant
            y <= height,
            rows > 0,
            cols > 0,
            colours.len() == rows * cols,
            raster::frames(image@, width, height),
            forall|u: int, v: int|
                raster::in_frame(width, height, u, v) && v < y ==> #[trigger] raster::pixel(
                    image@,
                    width as int,
                    u,
                    v,
                ) == cell_colour(
                    colours@,
                    cols as int,
                    heat_cell(
                        orientation,
                        rows as int,
                        cols as int,
                        width as int,
                        height as int,
                        u,
                        v,
                    ),
                ),
        decreases height - y,
    {
        let mut x: u32 = 0;
        while x < width
            invariant
                x <= width,
                y < height,
                rows > 0,
                cols > 0,
                colours.len() == rows * cols,
                raster::frames(image@, width, height),
                forall|u: int, v: int|
                    raster::in_frame(width, height, u, v) && (v < y || (v == y && u < x)) ==> (
                    #[trigger] raster::pixel(image@, width as int, u, v)) == cell_colour(
                        colours@,
                        cols as int,
                        heat_cell(
                            orientation,
                            rows as int,
                            cols as int,
                            width as int,
                            height as int,
                            u,
                            v,
                        ),
                    ),
            decreases width - x,
        {
            let up: u32 = height - 1 - y;
            let (row, col): (usize, usize) = if orientation == GraphOrientation::Vertical {
                (cell_of(up, rows, height), cell_of(x, cols, width))
            } else {
                (cell_of(x, rows, width), cell_of(up, cols, height))
            };
            proof {
                matrix::lemma_cell(rows as int, cols as int, row as int, col as int);
            }
            let rgb: [u8; 3] = colours[row * cols + col];
            let ghost before = image@;
            set_pixel(&mut image, width, height, x, y, [rgb[0], rgb[1], rgb[2], 255]);
            proof {
                assert([rgb[0], rgb[1], rgb[2], 255u8]@ =~= rgb@.push(255));
                assert forall|u: int, v: int|
                    raster::in_frame(width, height, u, v) && (v < y || (v == y && u < x
                        + 1)) implies (#[trigger] raster::pixel(image@, width as int, u, v))
                    == cell_colour(
                    colours@,
                    cols as int,
                    heat_cell(
                        orientation,
                        rows as int,
                        cols as int,
                        width as int,
                        height as int,
                        u,
                        v,
                    ),
                ) by {
                    if !(u == x && v == y) {
                        assert(raster::pixel(image@, width as int, u, v) == raster::pixel(
                            before,
                            width as int,
                            u,
                            v,
                        ));
                    }
                }
            }
            x += 1;
        }
        y += 1;
    }
    image
}

/// Whether a pixel lies on one of the lines that join the points one after another.
pub open spec fn on_path(points: Seq<(i32, i32)>, x: int, y: int) -> bool {
    exists|k: int|
        0 <= k < points.len() - 1 && #[trigger] raster::line_points(
            points[k].0 as int,
            points[k].1 as int,
            points[k + 1].0 as int,
            points[k + 1].1 as int,
        ).contains((x, y))
}

/// Draws the white lines that join the points, if there are at least three.
pub fn draw_conv_line(image: &mut Vec<u8>, width: u32, height: u32, points: &Vec<(i32, i32)>)
    requires
        raster::frames(old(image)@, width, height),
    ensures
        raster::frames(final(image)@, width, height),
        raster::painted(
            old(image)@,
            final(image)@,
            width,
            height,
            seq![255u8, 255, 255, 255],
            |x: int, y: int| points.len() >= 3 && on_path(points@, x, y),
        ),
{
    if points.len() < 3 {
        return;
    }
    let ghost start = image@;
    let ghost rgba = seq![255u8, 255, 255, 255];
    assert([255u8, 255, 255, 255]@ =~= rgba);
    let mut i: usize = 1;
    while i < points.len()
        invariant
            1 <= i <= points.len(),
            rgba == seq![255u8, 255, 255, 255],
            [255u8, 255, 255, 255]@ == rgba,
            raster::frames(image@, width, height),
            raster::painted(
                start,
                image@,
                width,
                height,
                rgba,
                |x: int, y: int| on_path(points@.take(i as int), x, y),
            ),
        decreases points.len() - i,
    {
        let (x0, y0): (i32, i32) = points[i - 1];
        let (x1, y1): (i32, i32) = points[i];
        let ghost before = image@;
        draw_line(image, width, height, x0, y0, x1, y1, [255, 255, 255, 255]);
        proof {
            let few = points@.take(i as int);
            let more = points@.take(i + 1);
            let line = raster::line_points(x0 as int, y0 as int, x1 as int, y1 as int);
            assert forall|x: int, y: int|
                on_path(more, x, y) == (on_path(few, x, y) || line.contains((x, y))) by {
                if on_path(more, x, y) {
                    let k = choose|k: int|
                        0 <= k < more.len() - 1 && #[trigger] raster::line_points(
                            more[k].0 as int,
                            more[k].1 as int,
                            more[k + 1].0 as int,
                            more[k + 1].1 as int,
                        ).contains((x, y));
                    if k < i - 1 {
                        assert(few[k] == more[k] && few[k + 1] == more[k + 1]);
                    }
                }
                if on_path(few, x, y) {
                    let k = choose|k: int|
                        0 <= k < few.len() - 1 && #[trigger] raster::line_points(
                            few[k].0 as int,
                            few[k].1 as int,
                            few[k + 1].0 as int,
                            few[k + 1].1 as int,
                        ).contains((x, y));
                    assert(few[k] == more[k] && few[k + 1] == more[k + 1]);
                }
                if line.contains((x, y)) {
                    assert(more[i - 1] == points@[i - 1] && more[i - 1 + 1] == points@[i as int]);
                }
            }
            assert forall|x: int, y: int|
                #![trigger raster::pixel(image@, width as int, x, y)]
                raster::in_frame(width, height, x, y) implies raster::pixel(
                image@,
                width as int,
                x,
                y,
            ) == (if on_path(more, x, y) {
                rgba
            } else {
                raster::pixel(start, width as int, x, y)
            }) by {
                assert(raster::pixel(before, width as int, x, y) == if on_path(few, x, y) {
                    rgba
                } else {
                    raster::pixel(start, width as int, x, y)
                });
            }
        }
        i += 1;
    }
    assert(points@.take(i as int) =~= points@);
}

/// What a heat plot shows at a pixel: the white line of the convolution, over
/// the red mark of the bias, over the cell of the matrix.
pub open spec fn heat_pixel(
    colours: Seq<[u8; 3]>,
    rows: int,
    cols: int,
    width: int,
    height: int,
    orientation: GraphOrientation,
    mark: u32,
    line: Seq<(i32, i32)>,
    x: int,
    y: int,
) -> Seq<u8> {
    if line.len() >= 3 && on_path(line, x, y) {
        seq![255u8, 255, 255, 255]
    } else if mark == (if orientation == GraphOrientation::Vertical {
        x
    } else {
        y
    }) {
        seq![220u8, 20, 20, 255]
    } else {
        cell_colour(colours, cols, heat_cell(orientation, rows, cols, width, height, x, y))
    }
}

/// The image of a heat plot. The mark is a column of a vertical plot and a row
/// of a horizontal one.
pub fn heat_plot_image(
    colours: &Vec<[u8; 3]>,
    rows: usize,
    cols: usize,
    width: u32,
    height: u32,
    orientation: GraphOrientation,
    mark: u32,
    line: &Vec<(i32, i32)>,
) -> (image: Vec<u8>)
    requires
        rows > 0,
        cols > 0,
        colours.len() == rows * cols,
        raster::addressable(width, height),
        orientation == GraphOrientation::Vertical && height > 0 ==> mark < width,
    ensures
        raster::frames(image@, width, height),
        forall|x: int, y: int|
            raster::in_frame(width, height, x, y) ==> #[trigger] raster::pixel(
                image@,
                width as int,
                x,
                y,
            ) == heat_pixel(
                colours@,
                rows as int,
                cols as int,
                width as int,
                height as int,
                orientation,
                mark,
                line@,
                x,
                y,
            ),
{
    let mut image: Vec<u8> = heat_image(colours, rows, cols, width, height, orientation);
    let ghost cells = image@;
    if orientation == GraphOrientation::Vertical {
        draw_vline(&mut image, width, height, mark, [220, 20, 20, 255]);
    } else {
        draw_hline(&mut image, width, height, mark, [220, 20, 20, 255]);
    }
    let ghost marked = image@;
    assert([220u8, 20, 20, 255]@ =~= seq![220u8, 20, 20, 255]);
    draw_conv_line(&mut image, width, height, line);
    proof {
        assert forall|x: int, y: int| raster::in_frame(width, height, x, y) implies (
        #[trigger] raster::pixel(image@, width as int, x, y)) == heat_pixel(
            colours@,
            rows as int,
            cols as int,
            width as int,
            height as int,
            orientation,
            mark,
            line@,
            x,
            y,
        ) by {
            let under = raster::pixel(cells, width as int, x, y);
            let middle = raster::pixel(marked, width as int, x, y);
            assert(under == cell_colour(
                colours@,
                cols as int,
                heat_cell(
                    orientation,
                    rows as int,
                    cols as int,
                    width as int,
                    height as int,
                    x,
                    y,
                ),
            ));
            assert(middle == if mark == (if orientation == GraphOrientation::Vertical {
                x
            } else {
                y
            }) {
                seq![220u8, 20, 20, 255]
            } else {
                under
            });
        }
    }
    image
}

/// The report of a plot.
pub fn plot_report(
    version: &str,
    input_json: &str,
    output_png: &str,
    width: u32,
    height: u32,
    span_ms: Real,
    bias_count: usize,
) -> (out: PlotReport)
    ensures
        out.tool@ == "nod"@,
        out.version@ == version@,
        out.input_json@ == input_json@,
        out.output_png@ == output_png@,
        out.width == width,
        out.height == height,
        out.span_ms == span_ms,
        out.bias_count == bias_count,
{
    PlotReport {
        tool: "nod".to_owned(),
        version: version.to_owned(),
        input_json: input_json.to_owned(),
        output_png: output_png.to_owned(),
        width,
        height,
        span_ms,
        bias_count,
    }
}

// ---------------------------------------------------------------------------
// PNG
// ---------------------------------------------------------------------------

/// The file that the `png` crate makes of an RGBA image of eight bits a channel,
/// with the settings that its encoder starts with.
pub uninterp spec fn png_file(width: u32, height: u32, rgba: Seq<u8>) -> Seq<u8>;

/// Encodes an image with `png::Encoder` (`write_header`, `write_image_data`)
/// into memory. The header is refused only for a frame without pixels, the data
/// only for a wrong length, and memory takes all that is written. The text of
/// the refusal is left open.
#[verifier::external_body]
fn encode_png(width: u32, height: u32, rgba: &Vec<u8>) -> (out: Result<Vec<u8>, String>)
    requires
        raster::frames(rgba@, width, height),
    ensures
        match out {
            Ok(file) => width > 0 && height > 0 && file@ == png_file(width, height, rgba@),
            Err(_) => width == 0 || height == 0,
        },
{
    let mut file: Vec<u8> = Vec::new();
    let mut encoder = png::Encoder::new(&mut file, width, height);
    encoder.set_color(png::ColorType::Rgba);
    encoder.set_depth(png::BitDepth::Eight);
    let mut writer = encoder.write_header().map_err(|e| e.to_string())?;
    writer.write_image_data(rgba).map_err(|e| e.to_string())?;
    drop(writer);
    Ok(file)
}

/// The PNG file of an image, or why there is none.
pub fn rgba_png(path: &str, width: u32, height: u32, rgba: &Vec<u8>) -> (out: Result<
    Vec<u8>,
    String,
>)
    requires
        raster::frames(rgba@, width, height),
    ensures
        out is Ok <==> width > 0 && height > 0,
        match out {
            Ok(file) => file@ == png_file(width, height, rgba@),
            Err(e) => exists|why: Seq<char>|
                e@ == "png header "@ + path@ + " failed: "@ + why,
        },
{
    match encode_png(width, height, rgba) {
        Ok(file) => Ok(file),
        Err(why) => {
            let e: String = join4("png header ", path, " failed: ", &why);
            assert(e@ == "png header "@ + path@ + " failed: "@ + why@);
            Err(e)
        },
    }
}

// ---------------------------------------------------------------------------
// Plotting
// ---------------------------------------------------------------------------

/// What a plot of bias values is asked for.
#[derive(Debug, Clone)]
pub struct PlotCmd {
    pub input_json: String,
    pub output_png: String,
    pub width: u32,
    pub height: u32,
    pub span_ms: Real,
}

/// The bit pattern of 50: how far a plot reaches where no span is given.
pub const FIFTY: u64 = 0x4049_0000_0000_0000;

/// The bit pattern of 2.
pub const TWO: u64 = 0x4000_0000_0000_0000;

/// The column that a value is marked in. The plot reaches as far as the span to
/// both sides.
pub open spec fn bias_px(ink: Ink, bias_ms: Real, span_ms: Real, width: u32) -> u32 {
    let m = ink.m;
    let span = if span_ms.absolute().less(Real { bits: heat::EPSILON }) {
        Real { bits: FIFTY }
    } else {
        span_ms
    };
    let share = m.over(m.plus(bias_ms, span), m.times(span, Real { bits: TWO })).clamped(
        number::zero(),
        stats::one(),
    );
    (ink.round)(
        Count::Along(
            share,
            if width == 0 {
                0
            } else {
                (width - 1) as u32
            },
        ),
    )
}

/// Markers keep the order of their values: for a span that can be reckoned with, a smaller
/// bias is never marked to the right of a larger one, so that a negative one is never marked
/// to the right of zero. What lies as far as the span to the left, or farther, is marked in
/// the first column, as far to the right in the last one, and zero in the middle; between,
/// the marker stands as far along as the value lies in what the plot reaches.
pub proof fn markers_keep_the_order(ink: Ink, a: Real, b: Real, span_ms: Real, width: u32)
    requires
        ink.m.gives_numbers(),
        ink.keeps_order(),
        ink.m.knows_zero_and_one(),
        ink.reaches_ends(),
        a.at_most(b),
        span_ms.finite(),
        !span_ms.less(Real { bits: 0x3cb0_0000_0000_0000 }),
        ink.m.times(span_ms, Real { bits: 0x4000_0000_0000_0000 }).finite(),
        ink.m.times(span_ms, Real { bits: 0x4000_0000_0000_0000 }).place() > 0,
        ink.m.plus(span_ms, span_ms) == ink.m.times(
            span_ms,
            Real { bits: 0x4000_0000_0000_0000 },
        ),
        ink.m.plus(span_ms.opposite(), span_ms).place() == 0,
        ink.m.over(span_ms, ink.m.times(span_ms, Real { bits: 0x4000_0000_0000_0000 })) == (
        Real { bits: 0x3fe0_0000_0000_0000 }),
        width > 0,
    ensures
        bias_px(ink, a, span_ms, width) <= bias_px(ink, b, span_ms, width),
        a.at_most(span_ms.opposite()) ==> bias_px(ink, a, span_ms, width) == 0,
        span_ms.at_most(a) ==> bias_px(ink, a, span_ms, width) == width - 1,
        bias_px(ink, number::zero(), span_ms, width) == (ink.round)(
            Count::Along(Real { bits: 0x3fe0_0000_0000_0000 }, (width - 1) as u32),
        ),
        a.at_most(number::zero()) ==> bias_px(ink, a, span_ms, width) <= bias_px(
            ink,
            number::zero(),
            span_ms,
            width,
        ),
        number::zero().at_most(b) ==> bias_px(ink, number::zero(), span_ms, width) <= bias_px(
            ink,
            b,
            span_ms,
            width,
        ),
        ({
            let reach = ink.m.times(span_ms, Real { bits: 0x4000_0000_0000_0000 });
            let along = ink.m.over(ink.m.plus(a, span_ms), reach);
            number::zero().at_most(along) && along.at_most(number::unity()) ==> bias_px(
                ink,
                a,
                span_ms,
                width,
            ) == (ink.round)(Count::Along(along, (width - 1) as u32))
        }),
{
    lemma_marker_order(ink, a, b, span_ms, width);
    let m = ink.m;
    let reach = m.times(span_ms, Real { bits: TWO });
    assert(number::zero().at_most(number::zero()));
    assert(m.plus(number::zero(), span_ms) == span_ms);
    if a.at_most(number::zero()) {
        lemma_marker_order(ink, a, number::zero(), span_ms, width);
    }
    if number::zero().at_most(b) {
        lemma_marker_order(ink, number::zero(), b, span_ms, width);
    }
    if a.at_most(span_ms.opposite()) {
        lemma_marker_order(ink, a, span_ms.opposite(), span_ms, width);
        assert(m.over(m.plus(span_ms.opposite(), span_ms), reach).place() == 0);
        assert(bias_px(ink, span_ms.opposite(), span_ms, width) == 0);
    }
    if span_ms.at_most(a) {
        let (x, y) = (m.plus(span_ms, span_ms), m.plus(a, span_ms));
        assert(!x.nan() && !y.nan() && x.at_most(y));
        assert(m.over(reach, reach) == number::unity());
        assert(!m.over(y, reach).nan());
        assert(m.over(x, reach).at_most(m.over(y, reach)));
    }
}

proof fn lemma_marker_order(ink: Ink, a: Real, b: Real, span_ms: Real, width: u32)
    requires
        ink.m.gives_numbers(),
        ink.keeps_order(),
        a.at_most(b),
        span_ms.finite(),
        !span_ms.less(Real { bits: heat::EPSILON }),
        ink.m.times(span_ms, Real { bits: TWO }).finite(),
        ink.m.times(span_ms, Real { bits: TWO }).place() > 0,
        width > 0,
    ensures
        bias_px(ink, a, span_ms, width) <= bias_px(ink, b, span_ms, width),
{
    let m = ink.m;
    let reach = m.times(span_ms, Real { bits: TWO });
    let (x, y) = (m.plus(a, span_ms), m.plus(b, span_ms));
    assert(!x.nan() && !y.nan() && x.at_most(y));
    assert(!m.over(x, reach).nan() && !m.over(y, reach).nan());
    assert(m.over(x, reach).at_most(m.over(y, reach)));
}

/// A span of next to nothing stands for fifty milliseconds to both sides.
pub proof fn no_span_stands_for_fifty(ink: Ink, bias_ms: Real, span_ms: Real, width: u32)
    requires
        span_ms.absolute().less(Real { bits: 0x3cb0_0000_0000_0000 }),
    ensures
        bias_px(ink, bias_ms, span_ms, width) == bias_px(
            ink,
            bias_ms,
            Real { bits: 0x4049_0000_0000_0000 },
            width,
        ),
{
}

/// Every bias is marked: its column is red from top to bottom, whatever else stands there,
/// and a column that is neither marked nor the middle is white. The middle is grey where no
/// bias is marked in it.
pub proof fn every_bias_is_marked(width: u32, marks: Seq<u32>, x: int)
    requires
        0 <= x < width,
    ensures
        bias_column(width, marks, x) == seq![220u8, 40, 40, 255] <==> exists|i: int|
            0 <= i < marks.len() && #[trigger] marks[i] == x,
        bias_column(width, marks, x) == seq![255u8, 255, 255, 255] <==> x != width / 2 && forall|
            i: int,
        |
            0 <= i < marks.len() ==> #[trigger] marks[i] != x,
        bias_column(width, marks, x) == seq![96u8, 96, 96, 255] <==> x == width / 2 && forall|
            i: int,
        |
            0 <= i < marks.len() ==> #[trigger] marks[i] != x,
{
    let (red, white, grey) = (
        seq![220u8, 40, 40, 255],
        seq![255u8, 255, 255, 255],
        seq![96u8, 96, 96, 255],
    );
    assert(red[0] == 220 && white[0] == 255 && grey[0] == 96);
    assert(x as u32 == x);
    if exists|i: int| 0 <= i < marks.len() && #[trigger] marks[i] == x {
        let i = choose|i: int| 0 <= i < marks.len() && #[trigger] marks[i] == x;
        assert(marks[i] == x as u32);
        assert(marks.contains(x as u32));
    }
    if marks.contains(x as u32) {
        let i = choose|i: int| 0 <= i < marks.len() && marks[i] == x as u32;
        assert(marks[i] == x);
    }
}

pub fn bias_to_x<C: Fn(Term) -> Real, L: Fn(u32, usize) -> Place, R: Fn(Count) -> u32>(
    painter: &Painter<C, L, R>,
    bias_ms: Real,
    span_ms: Real,
    width: u32,
) -> (x: u32)
    requires
        painter.ready(),
    ensures
        width > 0 ==> x < width,
        forall|ink: Ink| #[trigger]
            painter.follows(ink) ==> x == bias_px(ink, bias_ms, span_ms, width),
{
    let num: &Numerics<C, L> = &painter.num;
    let span: Real = if span_ms.without_sign().is_less(Real { bits: heat::EPSILON }) {
        Real { bits: FIFTY }
    } else {
        span_ms
    };
    let share: Real = num.over(
        num.plus(bias_ms, span),
        num.times(span, Real { bits: TWO }),
    ).clamp(Real { bits: 0 }, Real { bits: ONE });
    let most: u32 = if width == 0 {
        0
    } else {
        width - 1
    };
    let x: u32 = (painter.round)(Count::Along(share, most));
    assert(heat::unit(share));
    assert forall|ink: Ink| #[trigger] painter.follows(ink) implies x == bias_px(
        ink,
        bias_ms,
        span_ms,
        width,
    ) by {
        assert(painter.num.follows(ink.m));
    }
    x
}

/// The columns that values are marked in.
pub open spec fn marks_of(ink: Ink, cmd: PlotCmd, biases: Seq<Real>) -> Seq<u32> {
    Seq::new(biases.len(), |i: int| bias_px(ink, biases[i], cmd.span_ms, cmd.width))
}

fn mark_all<C: Fn(Term) -> Real, L: Fn(u32, usize) -> Place, R: Fn(Count) -> u32>(
    painter: &Painter<C, L, R>,
    cmd: &PlotCmd,
    biases: &Vec<Real>,
) -> (marks: Vec<u32>)
    requires
        painter.ready(),
        cmd.width > 0,
    ensures
        forall|i: int| 0 <= i < marks.len() ==> #[trigger] marks@[i] < cmd.width,
        forall|ink: Ink| #[trigger]
            painter.follows(ink) ==> marks@ == marks_of(ink, *cmd, biases@),
{
    let mut marks: Vec<u32> = Vec::new();
    let mut i: usize = 0;
    while i < biases.len()
        invariant
            i <= biases.len(),
            painter.ready(),
            cmd.width > 0,
            marks.len() == i,
            forall|k: int| 0 <= k < marks.len() ==> #[trigger] marks@[k] < cmd.width,
            forall|ink: Ink, k: int|
                #![trigger painter.follows(ink), marks@[k]]
                painter.follows(ink) && 0 <= k < i ==> marks@[k] == bias_px(
                    ink,
                    biases@[k],
                    cmd.span_ms,
                    cmd.width,
                ),
        decreases biases.len() - i,
    {
        let x: u32 = bias_to_x(painter, biases[i], cmd.span_ms, cmd.width);
        marks.push(x);
        i += 1;
    }
    assert forall|ink: Ink| #[trigger] painter.follows(ink) implies marks@ == marks_of(
        ink,
        *cmd,
        biases@,
    ) by {
        assert(marks@ =~= marks_of(ink, *cmd, biases@));
    }
    marks
}

/// Whether a file is the plot of the values of a document.
pub open spec fn plots_biases<
    C: Fn(Term) -> Real,
    L: Fn(u32, usize) -> Place,
    R: Fn(Count) -> u32,
>(
    painter: Painter<C, L, R>,
    cmd: PlotCmd,
    node: BiasNode,
    file: Seq<u8>,
) -> bool {
    exists|image: Seq<u8>|
        {
            &&& #[trigger] raster::frames(image, cmd.width, cmd.height)
            &&& forall|ink: Ink, x: int, y: int|
                #![trigger painter.follows(ink), raster::pixel(image, cmd.width as int, x, y)]
                painter.follows(ink) && raster::in_frame(cmd.width, cmd.height, x, y)
                    ==> raster::pixel(image, cmd.width as int, x, y) == bias_column(
                    cmd.width,
                    marks_of(ink, cmd, biases_in(node)),
                    x,
                )
            &&& file == png_file(cmd.width, cmd.height, image)
        }
}

/// Whether a report tells of the plot of a document.
pub open spec fn tells_of(
    version: Seq<char>,
    cmd: PlotCmd,
    node: BiasNode,
    report: PlotReport,
) -> bool {
    &&& report.tool@ == "nod"@
    &&& report.version@ == version
    &&& report.input_json@ == cmd.input_json@
    &&& report.output_png@ == cmd.output_png@
    &&& report.width == cmd.width
    &&& report.height == cmd.height
    &&& report.span_ms == cmd.span_ms
    &&& report.bias_count == biases_in(node).len()
}

/// Why no plot is drawn, if none is.
pub open spec fn plot_fault(cmd: PlotCmd, loaded: Result<BiasNode, LoadFault>) -> Option<Seq<char>> {
    if cmd.width == 0 || cmd.height == 0 {
        Some("width and height must be > 0"@)
    } else {
        match loaded {
            Err(LoadFault::Read(e)) => Some("read "@ + cmd.input_json@ + " failed: "@ + e@),
            Err(LoadFault::Parse(e)) => Some("parse "@ + cmd.input_json@ + " failed: "@ + e@),
            Ok(node) => if biases_in(node).len() == 0 {
                Some("no bias values found in JSON (bias_ms / bias_result / bias)"@)
            } else {
                None
            },
        }
    }
}

/// Plots the bias values of a document that was loaded. Gives the file that is to be
/// written, and the report for when it was.
pub fn run<C: Fn(Term) -> Real, L: Fn(u32, usize) -> Place, R: Fn(Count) -> u32>(
    painter: &Painter<C, L, R>,
    version: &str,
    cmd: &PlotCmd,
    loaded: Result<BiasNode, LoadFault>,
) -> (out: Result<(Vec<u8>, PlotReport), String>)
    requires
        painter.ready(),
        plot_fault(*cmd, loaded) is None ==> raster::addressable(cmd.width, cmd.height),
    ensures
        match out {
            Err(e) => plot_fault(*cmd, loaded) == Some(e@),
            Ok(drawn) => {
                &&& plot_fault(*cmd, loaded) is None
                &&& plots_biases(*painter, *cmd, loaded->Ok_0, drawn.0@)
                &&& tells_of(version@, *cmd, loaded->Ok_0, drawn.1)
            },
        },
{
    match check_bias_plot(cmd.width, cmd.height) {
        Ok(()) => {},
        Err(e) => {
            return Err(e);
        },
    }
    let node: BiasNode = match loaded {
        Ok(node) => node,
        Err(LoadFault::Read(e)) => {
            return Err(join4("read ", &cmd.input_json, " failed: ", &e));
        },
        Err(LoadFault::Parse(e)) => {
            return Err(join4("parse ", &cmd.input_json, " failed: ", &e));
        },
    };
    let biases: Vec<Real> = match biases_to_plot(&node) {
        Ok(biases) => biases,
        Err(e) => {
            return Err(e);
        },
    };
    let marks: Vec<u32> = mark_all(painter, cmd, &biases);
    let image: Vec<u8> = bias_plot_image(cmd.width, cmd.height, &marks);
    let file: Vec<u8> = match rgba_png(&cmd.output_png, cmd.width, cmd.height, &image) {
        Ok(file) => file,
        Err(e) => {
            return Err(e);
        },
    };
    assert(plots_biases(*painter, *cmd, node, file@)) by {
        assert(raster::frames(image@, cmd.width, cmd.height));
    }
    Ok(
        (
            file,
            plot_report(
                version,
                &cmd.input_json,
                &cmd.output_png,
                cmd.width,
                cmd.height,
                cmd.span_ms,
                biases.len(),
            ),
        ),
    )
}

// ---------------------------------------------------------------------------
// What plots show
// ---------------------------------------------------------------------------

/// The biases of a list are those of its items, one after another.
pub proof fn lists_give_the_biases_of_all_items(items: Vec<BiasNode>, k: int)
    requires
        0 <= k < items.len(),
    ensures
        biases_in(BiasNode::List(items)) == biases_in_items(items@, k as nat) + biases_in(items@[k])
            + biases_in_items(items@.skip(k + 1), (items.len() - k - 1) as nat),
        biases_in_items(items@, 0) == Seq::<Real>::empty(),
        biases_in_items(items@, (k + 1) as nat) == biases_in_items(items@, k as nat) + biases_in(
            items@[k],
        ),
        biases_in(BiasNode::Bare) == Seq::<Real>::empty(),
        forall|v: Real| #[trigger] biases_in(BiasNode::Number(v)) == Seq::<Real>::empty(),
        forall|v: Option<Real>| #[trigger] biases_in(BiasNode::Text(v)) == Seq::<Real>::empty(),
{
    lemma_items_split(items@, (k + 1) as nat, items@.len());
    assert(biases_in_items(items@, (k + 1) as nat) == biases_in_items(items@, k as nat)
        + biases_in(items@[k]));
}

proof fn lemma_items_split(items: Seq<BiasNode>, k: nat, n: nat)
    requires
        k <= n <= items.len(),
    ensures
        biases_in_items(items, n) == biases_in_items(items, k) + biases_in_items(
            items.skip(k as int),
            (n - k) as nat,
        ),
    decreases n,
{
    let rest = items.skip(k as int);
    if n == k {
        assert(biases_in_items(rest, 0) =~= Seq::<Real>::empty());
        assert(biases_in_items(items, k) + Seq::<Real>::empty() =~= biases_in_items(items, k));
    } else {
        lemma_items_split(items, k, (n - 1) as nat);
        assert(rest[n - k - 1] == items[n - 1]);
        assert(biases_in_items(rest, (n - k) as nat) == biases_in_items(
            rest,
            (n - k - 1) as nat,
        ) + biases_in(rest[n - k - 1]));
        assert(biases_in_items(items, k) + biases_in_items(rest, (n - k - 1) as nat) + biases_in(
            items[n - 1],
        ) =~= biases_in_items(items, k) + (biases_in_items(rest, (n - k - 1) as nat) + biases_in(
            items[n - 1],
        )));
    }
}

/// A record gives the biases that it holds itself, under "bias_ms", "bias_result" and "bias",
/// in this order, and then those of its entries. Of two entries with the same key the first
/// counts, and one that stands for no number gives none.
pub proof fn records_give_their_biases(
    entries: Vec<(String, BiasNode)>,
    key: Seq<char>,
    k: int,
)
    requires
        0 <= k < entries.len(),
        entries@[k].0@ == key,
        forall|j: int| 0 <= j < k ==> (#[trigger] entries@[j]).0@ != key,
    ensures
        number_under(entries@, key) == (match entries@[k].1 {
            BiasNode::Number(v) => Some(v),
            BiasNode::Text(v) => v,
            _ => None,
        }),
        ({
            let own = |name: Seq<char>|
                match number_under(entries@, name) {
                    Some(v) => seq![v],
                    None => Seq::empty(),
                };
            biases_in(BiasNode::Record(entries)) == own("bias_ms"@) + own("bias_result"@) + own(
                "bias"@,
            ) + biases_in_entries(entries@, entries@.len())
        }),
        biases_in_entries(entries@, (k + 1) as nat) == biases_in_entries(entries@, k as nat)
            + biases_in(entries@[k].1),
        biases_in_entries(entries@, 0) == Seq::<Real>::empty(),
{
    lemma_first_entry(entries@, key, k);
}

proof fn lemma_first_entry(entries: Seq<(String, BiasNode)>, key: Seq<char>, k: int)
    requires
        0 <= k < entries.len(),
        entries[k].0@ == key,
        forall|j: int| 0 <= j < k ==> (#[trigger] entries[j]).0@ != key,
    ensures
        number_under(entries, key) == node_number(entries[k].1),
    decreases k,
{
    if k > 0 {
        let rest = entries.drop_first();
        assert(entries[0].0@ != key);
        assert forall|j: int| 0 <= j < k - 1 implies (#[trigger] rest[j]).0@ != key by {
            assert(rest[j] == entries[j + 1]);
        }
        lemma_first_entry(rest, key, k - 1);
    }
}

/// No entry of that key, no bias under it.
pub proof fn missing_entries_give_no_bias(entries: Seq<(String, BiasNode)>, key: Seq<char>)
    requires
        forall|j: int| 0 <= j < entries.len() ==> (#[trigger] entries[j]).0@ != key,
    ensures
        number_under(entries, key) is None,
    decreases entries.len(),
{
    if entries.len() > 0 {
        assert(entries[0].0@ != key);
        let rest = entries.drop_first();
        assert forall|j: int| 0 <= j < rest.len() implies (#[trigger] rest[j]).0@ != key by {
            assert(rest[j] == entries[j + 1]);
        }
        missing_entries_give_no_bias(rest, key);
    }
}

/// A plot shows every bias of its document: in the column that the bias is marked in, every
/// pixel is red, and the file is that image.
pub proof fn plots_show_every_bias<
    C: Fn(Term) -> Real,
    L: Fn(u32, usize) -> Place,
    R: Fn(Count) -> u32,
>(
    painter: Painter<C, L, R>,
    ink: Ink,
    cmd: PlotCmd,
    node: BiasNode,
    file: Seq<u8>,
    i: int,
) -> (image: Seq<u8>)
    requires
        painter.follows(ink),
        plots_biases(painter, cmd, node, file),
        0 <= i < biases_in(node).len(),
    ensures
        file == png_file(cmd.width, cmd.height, image),
        image.len() == cmd.width * cmd.height * 4,
        forall|y: int|
            0 <= y < cmd.height && bias_px(ink, biases_in(node)[i], cmd.span_ms, cmd.width)
                < cmd.width ==> #[trigger] raster::pixel(
                image,
                cmd.width as int,
                bias_px(ink, biases_in(node)[i], cmd.span_ms, cmd.width) as int,
                y,
            ) == seq![220u8, 40, 40, 255],
{
    let image = choose|image: Seq<u8>|
        {
            &&& #[trigger] raster::frames(image, cmd.width, cmd.height)
            &&& forall|ink: Ink, x: int, y: int|
                #![trigger painter.follows(ink), raster::pixel(image, cmd.width as int, x, y)]
                painter.follows(ink) && raster::in_frame(cmd.width, cmd.height, x, y)
                    ==> raster::pixel(image, cmd.width as int, x, y) == bias_column(
                    cmd.width,
                    marks_of(ink, cmd, biases_in(node)),
                    x,
                )
            &&& file == png_file(cmd.width, cmd.height, image)
        };
    let marks = marks_of(ink, cmd, biases_in(node));
    let x = bias_px(ink, biases_in(node)[i], cmd.span_ms, cmd.width) as int;
    assert(marks[i] == x);
    if x < cmd.width {
        every_bias_is_marked(cmd.width, marks, x);
    }
    image
}

/// A heat plot shows the matrix the right way up: rows go up from the bottom of a vertical
/// plot and to the right in a horizontal one, and columns to the right and up. The first cell
/// stands in the lower left corner of both, and the last one in the upper right corner where
/// there is a pixel for every cell.
pub proof fn heat_plots_stand_upright(
    orientation: GraphOrientation,
    rows: int,
    cols: int,
    width: int,
    height: int,
    x: int,
    y: int,
    right: int,
    up: int,
)
    requires
        0 < rows,
        0 < cols,
        0 <= x <= right < width,
        0 <= up <= y < height,
    ensures
        ({
            let here = heat_cell(orientation, rows, cols, width, height, x, y);
            let beside = heat_cell(orientation, rows, cols, width, height, right, y);
            let above = heat_cell(orientation, rows, cols, width, height, x, up);
            &&& 0 <= here.0 < rows && 0 <= here.1 < cols
            &&& orientation == GraphOrientation::Vertical ==> beside.0 == here.0 && here.1
                <= beside.1 && above.1 == here.1 && here.0 <= above.0
            &&& orientation == GraphOrientation::Horizontal ==> beside.1 == here.1 && here.0
                <= beside.0 && above.0 == here.0 && here.1 <= above.1
        }),
        heat_cell(orientation, rows, cols, width, height, 0, height - 1) == (0int, 0int),
        orientation == GraphOrientation::Vertical && rows <= height && cols <= width ==> heat_cell(
            orientation,
            rows,
            cols,
            width,
            height,
            width - 1,
            0,
        ) == (rows - 1, cols - 1),
        orientation == GraphOrientation::Horizontal && rows <= width && cols <= height
            ==> heat_cell(orientation, rows, cols, width, height, width - 1, 0) == (
            rows - 1,
            cols - 1,
        ),
{
    if orientation == GraphOrientation::Vertical {
        pixels_show_cells(height - 1 - y, height - 1 - up, rows, height);
        pixels_show_cells(x, right, cols, width);
    } else {
        pixels_show_cells(x, right, rows, width);
        pixels_show_cells(height - 1 - y, height - 1 - up, cols, height);
    }
    lemma_first_cell(rows, height);
    lemma_first_cell(cols, width);
    lemma_first_cell(rows, width);
    lemma_first_cell(cols, height);
    if rows <= height {
        lemma_last_cell(rows, height);
    }
    if cols <= width {
        lemma_last_cell(cols, width);
    }
    if rows <= width {
        lemma_last_cell(rows, width);
    }
    if cols <= height {
        lemma_last_cell(cols, height);
    }
}

proof fn lemma_first_cell(count: int, size: int)
    requires
        size > 0,
    ensures
        cell_at(0, count, size) == 0,
{
    assert(0 * count == 0);
    vstd::arithmetic::div_mod::lemma_basic_div(0, size);
}

proof fn lemma_last_cell(count: int, size: int)
    requires
        0 < count <= size,
    ensures
        cell_at(size - 1, count, size) == count - 1,
{
    assert((size - 1) * count == (count - 1) * size + (size - count)) by (nonlinear_arith);
    vstd::arithmetic::div_mod::lemma_fundamental_div_mod_converse(
        (size - 1) * count,
        size,
        count - 1,
        size - count,
    );
}

/// The curve is drawn over the mark, and the mark over the matrix: a pixel on the curve is
/// white, one beside it in the marked column, or row, is red, and every other one shows its
/// cell. A curve of fewer than three points is not drawn.
pub proof fn curves_lie_over_marks(
    colours: Seq<[u8; 3]>,
    rows: int,
    cols: int,
    width: int,
    height: int,
    orientation: GraphOrientation,
    mark: u32,
    line: Seq<(i32, i32)>,
    x: int,
    y: int,
)
    ensures
        ({
            let shown = heat_pixel(
                colours,
                rows,
                cols,
                width,
                height,
                orientation,
                mark,
                line,
                x,
                y,
            );
            let marked = (orientation == GraphOrientation::Vertical && mark == x) || (orientation
                == GraphOrientation::Horizontal && mark == y);
            let cell = heat_cell(orientation, rows, cols, width, height, x, y);
            &&& line.len() >= 3 && on_path(line, x, y) ==> shown == seq![255u8, 255, 255, 255]
            &&& (line.len() < 3 || !on_path(line, x, y)) && marked ==> shown == seq![
                220u8,
                20,
                20,
                255,
            ]
            &&& (line.len() < 3 || !on_path(line, x, y)) && !marked ==> shown
                == colours[cell.0 * cols + cell.1]@ + seq![255u8]
        }),
{
    let cell = heat_cell(orientation, rows, cols, width, height, x, y);
    assert(colours[cell.0 * cols + cell.1]@.push(255) =~= colours[cell.0 * cols + cell.1]@ + seq![
        255u8,
    ]);
}

/// A plot is drawn just where it has a size, the document can be read, and there is a bias in
/// it.
pub proof fn plots_need_a_size_and_a_bias(cmd: PlotCmd, loaded: Result<BiasNode, LoadFault>)
    ensures
        plot_fault(cmd, loaded) is None <==> cmd.width > 0 && cmd.height > 0 && loaded is Ok
            && biases_in(loaded->Ok_0).len() > 0,
        cmd.width == 0 || cmd.height == 0 ==> plot_fault(cmd, loaded) == Some(
            "width and height must be > 0"@,
        ),
        cmd.width > 0 && cmd.height > 0 ==> {
            &&& loaded matches Err(LoadFault::Read(e)) ==> plot_fault(cmd, loaded) == Some(
                "read "@ + cmd.input_json@ + " failed: "@ + e@,
            )
            &&& loaded matches Err(LoadFault::Parse(e)) ==> plot_fault(cmd, loaded) == Some(
                "parse "@ + cmd.input_json@ + " failed: "@ + e@,
            )
            &&& loaded matches Ok(node) ==> biases_in(node).len() == 0 ==> plot_fault(cmd, loaded)
                == Some("no bias values found in JSON (bias_ms / bias_result / bias)"@)
        },
{
}

/// A report of a plot says what was asked for and how many biases were marked.
pub proof fn reports_tell_of_the_plot(
    version: Seq<char>,
    cmd: PlotCmd,
    node: BiasNode,
    report: PlotReport,
)
    requires
        tells_of(version, cmd, node, report),
    ensures
        report.tool@ == "nod"@ && report.version@ == version,
        report.input_json@ == cmd.input_json@ && report.output_png@ == cmd.output_png@,
        report.width == cmd.width && report.height == cmd.height,
        report.span_ms == cmd.span_ms,
        report.bias_count == biases_in(node).len(),
{
}

/// A heat plot has a consistent shape just where its matrix has rows and columns, a cell for
/// each pair of them, a time and a value of the curve for each column, and a place on the other
/// axis for each row.
pub proof fn shapes_fit_their_axes(
    matrix: int,
    rows: int,
    cols: int,
    times: int,
    y_axis: int,
    convolution: int,
)
    requires
        0 <= rows,
        0 <= cols,
        rows * cols <= usize::MAX,
    ensures
        heat_shape_fault(matrix, rows, cols, times, y_axis, convolution) is None <==> rows > 0
            && cols > 0 && matrix == rows * cols && times == cols && y_axis == rows && convolution
            == cols,
{
}

/// A curve joins each of its points with the next, and goes nowhere else.
pub proof fn curves_join_their_points(points: Seq<(i32, i32)>, k: int, x: int, y: int)
    requires
        0 <= k,
        k + 1 < points.len(),
    ensures
        raster::line_points(
            points[k].0 as int,
            points[k].1 as int,
            points[k + 1].0 as int,
            points[k + 1].1 as int,
        ).contains((x, y)) ==> on_path(points, x, y),
        on_path(points, x, y) ==> exists|a: int, b: int|
            b == a + 1 && 0 <= a && b < points.len() && #[trigger] raster::line_points(
                points[a].0 as int,
                points[a].1 as int,
                points[b].0 as int,
                points[b].1 as int,
            ).contains((x, y)),
{
    if on_path(points, x, y) {
        let a = choose|a: int|
            0 <= a < points.len() - 1 && #[trigger] raster::line_points(
                points[a].0 as int,
                points[a].1 as int,
                points[a + 1].0 as int,
                points[a + 1].1 as int,
            ).contains((x, y));
        let b = a + 1;
        assert(raster::line_points(
            points[a].0 as int,
            points[a].1 as int,
            points[b].0 as int,
            points[b].1 as int,
        ).contains((x, y)));
    }
}

} // verus!
