//! The heat plots of an estimate.

use crate::model::GraphOrientation;
use crate::number;
use crate::number::{Real, HALF};
use crate::numeric::{Meaning, Numerics, Place, Term};
use crate::peaks;
use crate::peaks::{highest, lowest};
use crate::plot;
use crate::plot::{check_heat_shape, heat_plot_image, nine_or_null_jobs, rgba_png};
use crate::plot::{HeatJob, PlotAxis, PlotSource, HEAT_SIDE};
use crate::raster;
use crate::stats;
use crate::stats::{part_of, percentile, ONE};
use crate::text;
use crate::text::copy_of;
use crate::trace::BiasPlotData;
use vstd::prelude::*;

verus! {

/// The bit pattern of the distance from one to the next number.
pub const EPSILON: u64 = 0x3cb0_0000_0000_0000;

/// The bit pattern of 4.
pub const FOUR: u64 = 0x4010_0000_0000_0000;

/// The bit pattern of 0.9.
pub const NINE_TENTHS: u64 = 0x3fec_cccc_cccc_cccd;

/// The bit pattern of 0.1.
pub const TENTH: u64 = 0x3fb9_9999_9999_999a;

// ---------------------------------------------------------------------------
// Whole numbers
// ---------------------------------------------------------------------------

/// A whole number that is to be computed.
#[derive(Debug, Clone, Copy, PartialEq, Eq, Structural)]
pub enum Count {
    /// The nearest to the product of both.
    Along(Real, u32),
    /// The nearest to the product of the second and of what the first lacks of one.
    Against(Real, u32),
    /// The nearest to the number that lies that far from the first to the second.
    Blend(u8, u8, Real),
    /// How many whole fourths there are in a number.
    Fourths(Real),
}

/// Whether a number is no less than zero and no more than one. What is no number
/// counts too.
pub open spec fn unit(t: Real) -> bool {
    !t.less(number::zero()) && !stats::one().less(t)
}

/// What plots are computed with: numbers, and whole numbers.
pub struct Painter<C, L, R> {
    pub num: Numerics<C, L>,
    pub round: R,
}

impl<C: Fn(Term) -> Real, L: Fn(u32, usize) -> Place, R: Fn(Count) -> u32> Painter<C, L, R> {
    /// Whether everything can be computed, and what is computed from a share of a
    /// length, or between two shades, is no more than the length, or a shade.
    pub open spec fn ready(self) -> bool {
        &&& self.num.ready()
        &&& forall|c: Count| #[trigger] call_requires(self.round, (c,))
        &&& forall|t: Real, n: u32, x: u32| #[trigger]
            call_ensures(self.round, (Count::Along(t, n),), x) && unit(t) ==> x <= n
        &&& forall|t: Real, n: u32, x: u32| #[trigger]
            call_ensures(self.round, (Count::Against(t, n),), x) && unit(t) ==> x <= n
        &&& forall|a: u8, b: u8, t: Real, x: u32| #[trigger]
            call_ensures(self.round, (Count::Blend(a, b, t),), x) ==> x <= 255
    }

    /// Whether `ink` says what is computed.
    pub open spec fn follows(self, ink: Ink) -> bool {
        &&& self.num.follows(ink.m)
        &&& forall|c: Count, x: u32| #[trigger]
            call_ensures(self.round, (c,), x) ==> x == (ink.round)(c)
    }
}

/// What is computed for a plot.
pub ghost struct Ink {
    pub m: Meaning,
    pub round: spec_fn(Count) -> u32,
}

impl Ink {
    /// Whether pixels keep the order of the shares that they stand for.
    pub open spec fn keeps_order(self) -> bool {
        &&& self.m.keeps_order()
        &&& forall|t: Real, u: Real, n: u32|
            #![trigger (self.round)(Count::Along(t, n)), (self.round)(Count::Along(u, n))]
            t.at_most(u) ==> (self.round)(Count::Along(t, n)) <= (self.round)(Count::Along(u, n))
        &&& forall|t: Real, u: Real, n: u32|
            #![trigger (self.round)(Count::Against(t, n)), (self.round)(Count::Against(u, n))]
            t.at_most(u) ==> (self.round)(Count::Against(u, n)) <= (self.round)(
                Count::Against(t, n),
            )
    }

    /// Whether the ends of a length are reached: nothing of it and all of it.
    pub open spec fn reaches_ends(self) -> bool {
        &&& forall|t: Real, n: u32|
            t.place() == 0 ==> #[trigger] (self.round)(Count::Along(t, n)) == 0
        &&& forall|n: u32| #[trigger] (self.round)(Count::Along(number::unity(), n)) == n
        &&& forall|t: Real, n: u32|
            t.place() == 0 ==> #[trigger] (self.round)(Count::Against(t, n)) == n
        &&& forall|n: u32| #[trigger] (self.round)(Count::Against(number::unity(), n)) == 0
    }
}

// ---------------------------------------------------------------------------
// Ranges
// ---------------------------------------------------------------------------

/// How far a value lies from `lo` to `hi`; the middle where both hardly differ.
pub open spec fn share_of(m: Meaning, v: Real, lo: Real, hi: Real) -> Real {
    let span = m.minus(hi, lo);
    if !span.finite() || span.absolute().less(Real { bits: EPSILON }) {
        Real { bits: HALF }
    } else {
        m.over(m.minus(v, lo), span).clamped(number::zero(), stats::one())
    }
}

/// A share is no less than zero and no more than one.
pub proof fn shares_are_units(m: Meaning, v: Real, lo: Real, hi: Real)
    ensures
        unit(share_of(m, v, lo, hi)),
{
}

/// A share grows with its value, from zero at the one end of a range, and below it, to one
/// at the other, and above it; between, it is how far the value lies along the range.
pub proof fn shares_keep_the_order(m: Meaning, v: Real, w: Real, lo: Real, hi: Real)
    requires
        m.gives_numbers(),
        m.keeps_order(),
        m.knows_zero_and_one(),
        v.at_most(w),
        lo.finite(),
        m.minus(hi, lo).finite(),
        m.minus(hi, lo).place() > 0,
        !m.minus(hi, lo).less(Real { bits: 0x3cb0_0000_0000_0000 }),
    ensures
        share_of(m, v, lo, hi).at_most(share_of(m, w, lo, hi)),
        v.at_most(lo) ==> share_of(m, v, lo, hi).place() == 0,
        hi.at_most(v) ==> share_of(m, v, lo, hi) == number::unity(),
        ({
            let along = m.over(m.minus(v, lo), m.minus(hi, lo));
            number::zero().at_most(along) && along.at_most(number::unity()) ==> share_of(
                m,
                v,
                lo,
                hi,
            ) == along
        }),
{
    let span = m.minus(hi, lo);
    let (a, b) = (m.minus(v, lo), m.minus(w, lo));
    assert(!a.nan() && !b.nan() && a.at_most(b));
    assert(!m.over(a, span).nan() && !m.over(b, span).nan());
    assert(m.over(a, span).at_most(m.over(b, span)));
    if v.at_most(lo) {
        let low = m.minus(lo, lo);
        assert(low.place() == 0 && m.over(low, span).place() == 0);
        assert(a.at_most(low)) by {
            assert(!low.nan());
        }
        assert(m.over(a, span).at_most(m.over(low, span))) by {
            assert(!m.over(low, span).nan());
        }
    }
    if hi.at_most(v) {
        assert(span.at_most(a));
        assert(m.over(span, span) == number::unity());
        assert(m.over(span, span).at_most(m.over(a, span)));
    }
}

/// A range that is no range at all puts every value in its middle.
pub proof fn no_range_has_a_middle(m: Meaning, v: Real, lo: Real, hi: Real)
    requires
        !m.minus(hi, lo).finite() || m.minus(hi, lo).absolute().less(
            Real { bits: 0x3cb0_0000_0000_0000 },
        ),
    ensures
        share_of(m, v, lo, hi) == (Real { bits: 0x3fe0_0000_0000_0000 }),
{
}

pub fn norm01<C: Fn(Term) -> Real, L: Fn(u32, usize) -> Place>(
    num: &Numerics<C, L>,
    v: Real,
    lo: Real,
    hi: Real,
) -> (out: Real)
    requires
        num.ready(),
    ensures
        unit(out),
        forall|m: Meaning| #[trigger] num.follows(m) ==> out == share_of(m, v, lo, hi),
{
    let span: Real = num.minus(hi, lo);
    if !span.is_finite() || span.without_sign().is_less(Real { bits: EPSILON }) {
        Real { bits: HALF }
    } else {
        num.over(num.minus(v, lo), span).clamp(Real { bits: 0 }, Real { bits: ONE })
    }
}

/// The number that lies as far as `t` from `a` to `b`.
pub open spec fn between(m: Meaning, a: Real, b: Real, t: Real) -> Real {
    m.plus(m.times(a, m.minus(stats::one(), t)), m.times(b, t))
}

/// What lies between two numbers starts at the first, ends at the second, and comes from
/// both, each by its share.
pub proof fn blends_start_and_end(m: Meaning, a: Real, b: Real, t: Real)
    requires
        m.knows_zero_and_one(),
        m.adds_as_numbers(),
        a.finite(),
        b.finite(),
    ensures
        between(m, a, b, t) == m.plus(
            m.times(a, m.minus(number::unity(), t)),
            m.times(b, t),
        ),
        t == number::zero() && m.times(a, number::unity()) == a && a.place() != 0 ==> between(
            m,
            a,
            b,
            t,
        ) == a,
        t == number::unity() && m.times(b, number::unity()) == b && b.place() != 0 ==> between(
            m,
            a,
            b,
            t,
        ) == b,
{
    assert(m.minus(number::unity(), number::unity()).place() == 0);
    assert(m.times(b, number::zero()).place() == 0);
}

pub fn lerp<C: Fn(Term) -> Real, L: Fn(u32, usize) -> Place>(
    num: &Numerics<C, L>,
    a: Real,
    b: Real,
    t: Real,
) -> (out: Real)
    requires
        num.ready(),
    ensures
        forall|m: Meaning| #[trigger] num.follows(m) ==> out == between(m, a, b, t),
{
    num.plus(num.times(a, num.minus(Real { bits: ONE }, t)), num.times(b, t))
}

/// What the values range over: from zero to one where there are none; from the
/// lowest to the highest; or, where all are the same, from one below to one above.
pub open spec fn span_of(m: Meaning, values: Seq<Real>) -> (Real, Real) {
    let lo = peaks::lowest_of(values);
    let hi = peaks::highest_of(values);
    if values.len() == 0 {
        (number::zero(), stats::one())
    } else if lo.less(hi) {
        (lo, hi)
    } else {
        (m.minus(lo, stats::one()), m.plus(hi, stats::one()))
    }
}

/// What some values range over holds all of them, from the lowest to the highest; where all
/// are the same it reaches one further to both sides, and where there are none, from zero to
/// one.
pub proof fn ranges_hold_their_values(m: Meaning, values: Seq<Real>, i: int)
    requires
        0 <= i < values.len(),
        forall|k: int| 0 <= k < values.len() ==> (#[trigger] values[k]).finite(),
    ensures
        ({
            let (lo, hi) = span_of(m, values);
            let (least, most) = (peaks::lowest_of(values), peaks::highest_of(values));
            &&& least.at_most(values[i]) && values[i].at_most(most)
            &&& least.less(most) ==> lo == least && hi == most && lo.at_most(values[i])
                && values[i].at_most(hi) && values.contains(lo) && values.contains(hi)
            &&& !least.less(most) ==> values[i].alike(least) && lo == m.minus(
                least,
                number::unity(),
            ) && hi == m.plus(most, number::unity())
        }),
        span_of(m, Seq::empty()) == (number::zero(), number::unity()),
{
    peaks::extremes_are_values(values);
    assert(number::above_all().place() == 0x7ff0_0000_0000_0000int);
    assert(number::below_all().place() == -0x7ff0_0000_0000_0000int);
    assert(!values[i].less(peaks::lowest_of(values)));
    assert(!peaks::highest_of(values).less(values[i]));
}

pub fn axis_minmax<C: Fn(Term) -> Real, L: Fn(u32, usize) -> Place>(
    num: &Numerics<C, L>,
    values: &Vec<Real>,
) -> (out: (Real, Real))
    requires
        num.ready(),
    ensures
        forall|m: Meaning| #[trigger] num.follows(m) ==> out == span_of(m, values@),
{
    if values.len() == 0 {
        return (Real { bits: 0 }, Real { bits: ONE });
    }
    let lo: Real = lowest(values);
    let hi: Real = highest(values);
    if lo.is_less(hi) {
        (lo, hi)
    } else {
        (num.minus(lo, Real { bits: ONE }), num.plus(hi, Real { bits: ONE }))
    }
}

/// Whether colours range over this: over what lies between two percentiles of the
/// values, where they are asked for and differ, and else over all values.
pub open spec fn colours_span(
    m: Meaning,
    values: Seq<Real>,
    percentiles: Option<(u32, u32)>,
    out: (Real, Real),
) -> bool {
    match percentiles {
        None => out == span_of(m, values),
        Some((p, q)) => exists|lo: Real, hi: Real|
            {
                &&& #[trigger] stats::percentile_is(m, values, p, lo)
                &&& #[trigger] stats::percentile_is(m, values, q, hi)
                &&& out == if values.len() > 0 && lo.less(hi) {
                    (lo, hi)
                } else {
                    span_of(m, values)
                }
            },
    }
}

pub fn value_range<C: Fn(Term) -> Real, L: Fn(u32, usize) -> Place>(
    num: &Numerics<C, L>,
    values: &Vec<Real>,
    percentiles: Option<(u32, u32)>,
) -> (out: (Real, Real))
    requires
        num.ready(),
        percentiles matches Some((p, q)) ==> p <= 100 && q <= 100,
    ensures
        forall|m: Meaning| #[trigger]
            num.follows(m) ==> colours_span(m, values@, percentiles, out),
{
    match percentiles {
        Some((p, q)) => {
            let lo: Real = percentile(num, values, p);
            let hi: Real = percentile(num, values, q);
            let out: (Real, Real) = if values.len() > 0 && lo.is_less(hi) {
                (lo, hi)
            } else {
                axis_minmax(num, values)
            };
            assert forall|m: Meaning| #[trigger] num.follows(m) implies colours_span(
                m,
                values@,
                percentiles,
                out,
            ) by {
                assert(stats::percentile_is(m, values@, p, lo));
                assert(stats::percentile_is(m, values@, q, hi));
            }
            out
        },
        None => axis_minmax(num, values),
    }
}

// ---------------------------------------------------------------------------
// Colours
// ---------------------------------------------------------------------------

/// The colours that the others are blended from.
pub open spec fn stop_of(i: int) -> Seq<u8> {
    if i <= 0 {
        seq![68u8, 1, 84]
    } else if i == 1 {
        seq![59u8, 82, 139]
    } else if i == 2 {
        seq![33u8, 145, 140]
    } else if i == 3 {
        seq![94u8, 201, 98]
    } else {
        seq![253u8, 231, 37]
    }
}

fn stop(i: u32) -> (out: [u8; 3])
    ensures
        out@ == stop_of(i as int),
{
    let out: [u8; 3] = if i == 0 {
        [68, 1, 84]
    } else if i == 1 {
        [59, 82, 139]
    } else if i == 2 {
        [33, 145, 140]
    } else if i == 3 {
        [94, 201, 98]
    } else {
        [253, 231, 37]
    };
    assert(out@ =~= stop_of(i as int));
    out
}

/// The colour of a share.
pub open spec fn colour_of(ink: Ink, share: Real) -> Seq<u8> {
    let t = share.clamped(number::zero(), stats::one());
    let i = (ink.round)(Count::Fourths(t));
    let frac = ink.m.minus(ink.m.times(t, Real { bits: FOUR }), ink.m.whole(i as int));
    if i >= 4 {
        stop_of(4)
    } else {
        Seq::new(
            3,
            |k: int|
                (ink.round)(
                    Count::Blend(stop_of(i as int)[k], stop_of(i + 1)[k], frac),
                ) as u8,
        )
    }
}

pub fn viridis<C: Fn(Term) -> Real, L: Fn(u32, usize) -> Place, R: Fn(Count) -> u32>(
    painter: &Painter<C, L, R>,
    share: Real,
) -> (out: [u8; 3])
    requires
        painter.ready(),
    ensures
        forall|ink: Ink| #[trigger] painter.follows(ink) ==> out@ == colour_of(ink, share),
{
    let num: &Numerics<C, L> = &painter.num;
    let t: Real = share.clamp(Real { bits: 0 }, Real { bits: ONE });
    let i: u32 = (painter.round)(Count::Fourths(t));
    if i >= 4 {
        return stop(4);
    }
    let frac: Real = num.minus(
        num.times(t, Real { bits: FOUR }),
        num.value(Term::Whole(i as i128)),
    );
    let a: [u8; 3] = stop(i);
    let b: [u8; 3] = stop(i + 1);
    let red: u32 = (painter.round)(Count::Blend(a[0], b[0], frac));
    let green: u32 = (painter.round)(Count::Blend(a[1], b[1], frac));
    let blue: u32 = (painter.round)(Count::Blend(a[2], b[2], frac));
    let out: [u8; 3] = [red as u8, green as u8, blue as u8];
    assert forall|ink: Ink| #[trigger] painter.follows(ink) implies out@ == colour_of(
        ink,
        share,
    ) by {
        assert(painter.num.follows(ink.m));
        assert(out@ =~= colour_of(ink, share));
    }
    out
}

/// The colours run from dark violet at zero, and below it, through blue, teal and green to
/// yellow at one, and above it; a share between two of the five is blended from both, the
/// nearer the larger the part.
pub proof fn colours_run_from_violet_to_yellow(ink: Ink, share: Real)
    requires
        !share.nan(),
    ensures
        ({
            let t = if share.place() < 0 {
                number::zero()
            } else if number::unity().less(share) {
                number::unity()
            } else {
                share
            };
            let i = (ink.round)(Count::Fourths(t));
            let stops = seq![
                seq![68u8, 1, 84],
                seq![59u8, 82, 139],
                seq![33u8, 145, 140],
                seq![94u8, 201, 98],
                seq![253u8, 231, 37],
            ];
            let frac = ink.m.minus(
                ink.m.times(t, Real { bits: 0x4010_0000_0000_0000 }),
                ink.m.whole(i as int),
            );
            &&& colour_of(ink, share) == colour_of(ink, t)
            &&& i >= 4 ==> colour_of(ink, share) == stops[4]
            &&& i < 4 ==> colour_of(ink, share).len() == 3 && forall|k: int|
                0 <= k < 3 ==> #[trigger] colour_of(ink, share)[k] == (ink.round)(
                    Count::Blend(stops[i as int][k], stops[i + 1][k], frac),
                ) as u8
        }),
{
    let t = share.clamped(number::zero(), stats::one());
    let i = (ink.round)(Count::Fourths(t));
    assert(t.clamped(number::zero(), stats::one()) == t);
    let stops = seq![
        seq![68u8, 1, 84],
        seq![59u8, 82, 139],
        seq![33u8, 145, 140],
        seq![94u8, 201, 98],
        seq![253u8, 231, 37],
    ];
    assert(stop_of(0) == stops[0] && stop_of(1) == stops[1] && stop_of(2) == stops[2] && stop_of(3)
        == stops[3] && stop_of(4) == stops[4]);
    assert(i < 4 ==> i == 0 || i == 1 || i == 2 || i == 3);
}

/// The part of a convolution whose values bound its curve: all but the discarded
/// edges, of which each takes at most half.
pub fn core_range(len: usize, edge_discard: usize) -> (range: (usize, usize))
    ensures
        range.0 == (if edge_discard < len / 2 {
            edge_discard
        } else {
            len / 2
        }),
        range.1 == len - range.0,
        range.0 <= range.1 <= len,
{
    let half: usize = len / 2;
    let edge: usize = if edge_discard < half {
        edge_discard
    } else {
        half
    };
    (edge, len - edge)
}

// ---------------------------------------------------------------------------
// Places
// ---------------------------------------------------------------------------

/// The pixel among `size` that a value between `lo` and `hi` stands at.
pub open spec fn forward_px(ink: Ink, v: Real, lo: Real, hi: Real, size: u32) -> u32 {
    if size <= 1 {
        0
    } else {
        (ink.round)(Count::Along(share_of(ink.m, v, lo, hi), (size - 1) as u32))
    }
}

/// The same, counted from the other end.
pub open spec fn backward_px(ink: Ink, v: Real, lo: Real, hi: Real, size: u32) -> u32 {
    if size <= 1 {
        0
    } else {
        (ink.round)(Count::Against(share_of(ink.m, v, lo, hi), (size - 1) as u32))
    }
}

/// Values stand in their order along an axis, whichever end it is counted from: the lower
/// end of the range at the first pixel and the upper one at the last, or the other way
/// round.
pub proof fn pixels_keep_the_order(ink: Ink, v: Real, w: Real, lo: Real, hi: Real, size: u32)
    requires
        ink.m.gives_numbers(),
        ink.keeps_order(),
        ink.m.knows_zero_and_one(),
        ink.reaches_ends(),
        v.at_most(w),
        lo.finite(),
        ink.m.minus(hi, lo).finite(),
        ink.m.minus(hi, lo).place() > 0,
        !ink.m.minus(hi, lo).less(Real { bits: 0x3cb0_0000_0000_0000 }),
        size > 0,
    ensures
        forward_px(ink, v, lo, hi, size) <= forward_px(ink, w, lo, hi, size),
        backward_px(ink, w, lo, hi, size) <= backward_px(ink, v, lo, hi, size),
        v.at_most(lo) ==> forward_px(ink, v, lo, hi, size) == 0,
        v.at_most(lo) ==> backward_px(ink, v, lo, hi, size) == size - 1,
        hi.at_most(v) ==> forward_px(ink, v, lo, hi, size) == size - 1,
        hi.at_most(v) ==> backward_px(ink, v, lo, hi, size) == 0,
{
    shares_keep_the_order(ink.m, v, w, lo, hi);
}

pub fn x_to_px<C: Fn(Term) -> Real, L: Fn(u32, usize) -> Place, R: Fn(Count) -> u32>(
    painter: &Painter<C, L, R>,
    v: Real,
    lo: Real,
    hi: Real,
    width: u32,
) -> (out: u32)
    requires
        painter.ready(),
    ensures
        width > 0 ==> out < width,
        forall|ink: Ink| #[trigger]
            painter.follows(ink) ==> out == forward_px(ink, v, lo, hi, width),
{
    if width <= 1 {
        return 0;
    }
    let share: Real = norm01(&painter.num, v, lo, hi);
    let out: u32 = (painter.round)(Count::Along(share, width - 1));
    assert forall|ink: Ink| #[trigger] painter.follows(ink) implies out == forward_px(
        ink,
        v,
        lo,
        hi,
        width,
    ) by {
        assert(painter.num.follows(ink.m));
    }
    out
}

pub fn y_to_px<C: Fn(Term) -> Real, L: Fn(u32, usize) -> Place, R: Fn(Count) -> u32>(
    painter: &Painter<C, L, R>,
    v: Real,
    lo: Real,
    hi: Real,
    height: u32,
) -> (out: u32)
    requires
        painter.ready(),
    ensures
        height > 0 ==> out < height,
        forall|ink: Ink| #[trigger]
            painter.follows(ink) ==> out == backward_px(ink, v, lo, hi, height),
{
    if height <= 1 {
        return 0;
    }
    let share: Real = norm01(&painter.num, v, lo, hi);
    let out: u32 = (painter.round)(Count::Against(share, height - 1));
    assert forall|ink: Ink| #[trigger] painter.follows(ink) implies out == backward_px(
        ink,
        v,
        lo,
        hi,
        height,
    ) by {
        assert(painter.num.follows(ink.m));
    }
    out
}

// ---------------------------------------------------------------------------
// One heat plot
// ---------------------------------------------------------------------------

/// What a heat plot is drawn from: a matrix, when its columns and where its rows
/// stand, the convolution with the number of columns at each end that do not bound
/// its curve, the bias, and the percentiles that bound the colours.
pub struct HeatData<'a> {
    pub matrix: &'a Vec<Real>,
    pub rows: usize,
    pub cols: usize,
    pub times_ms: &'a Vec<Real>,
    pub y_axis: &'a Vec<Real>,
    pub convolution: &'a Vec<Real>,
    pub edge_discard: usize,
    pub bias_ms: Real,
    pub percentiles: Option<(u32, u32)>,
}

/// Where the bias is marked: a column of a vertical plot, a row of a horizontal one.
pub open spec fn mark_of(
    ink: Ink,
    data: HeatData,
    width: u32,
    height: u32,
    orientation: GraphOrientation,
) -> u32 {
    let times = data.times_ms@;
    if orientation == GraphOrientation::Vertical {
        forward_px(ink, data.bias_ms, times[0], times.last(), width)
    } else {
        backward_px(ink, data.bias_ms, times[0], times.last(), height)
    }
}

/// What bounds the curve of a convolution: all but the edges, of which each takes
/// at most half.
pub open spec fn curve_core(convolution: Seq<Real>, edge_discard: usize) -> Seq<Real> {
    let edge = if edge_discard < convolution.len() / 2 {
        edge_discard as int
    } else {
        (convolution.len() / 2) as int
    };
    convolution.subrange(edge, convolution.len() - edge)
}

/// How high the curve of a convolution stands at a column, on the axis of the rows.
/// It takes up the middle eight tenths.
pub open spec fn curve_height(ink: Ink, data: HeatData, i: int) -> Real {
    let m = ink.m;
    let (y_lo, y_hi) = span_of(m, data.y_axis@);
    let core = curve_core(data.convolution@, data.edge_discard);
    let y_from = m.plus(
        m.times(y_lo, Real { bits: NINE_TENTHS }),
        m.times(y_hi, Real { bits: TENTH }),
    );
    let y_to = m.plus(
        m.times(y_lo, Real { bits: TENTH }),
        m.times(y_hi, Real { bits: NINE_TENTHS }),
    );
    between(
        m,
        y_from,
        y_to,
        share_of(
            m,
            data.convolution@[i],
            peaks::lowest_of(core),
            peaks::highest_of(core),
        ),
    )
}

/// The curve keeps to the middle eight tenths of the plot and rises with the convolution: at
/// the lowest value between the edges it stands a tenth above the bottom of the axis, at the
/// highest a tenth below its top, and as far between as the value lies.
pub proof fn curves_rise_with_the_convolution(ink: Ink, data: HeatData, i: int)
    requires
        0 <= i < data.convolution.len(),
    ensures
        ({
            let m = ink.m;
            let (y_lo, y_hi) = span_of(m, data.y_axis@);
            let tenth = Real { bits: 0x3fb9_9999_9999_999a };
            let rest = Real { bits: 0x3fec_cccc_cccc_cccd };
            let bottom = m.plus(m.times(y_lo, rest), m.times(y_hi, tenth));
            let top = m.plus(m.times(y_lo, tenth), m.times(y_hi, rest));
            let half = data.convolution.len() as int / 2;
            let edge = if data.edge_discard < half {
                data.edge_discard as int
            } else {
                half
            };
            let core = data.convolution@.subrange(edge, data.convolution.len() - edge);
            let t = share_of(
                m,
                data.convolution@[i],
                peaks::lowest_of(core),
                peaks::highest_of(core),
            );
            curve_height(ink, data, i) == m.plus(
                m.times(bottom, m.minus(number::unity(), t)),
                m.times(top, t),
            )
        }),
{
}

/// The bias is marked where the curve stands at the column of that time: both are placed
/// by the same axis of times.
pub proof fn marks_stand_on_the_axis_of_times(
    ink: Ink,
    data: HeatData,
    width: u32,
    height: u32,
    i: int,
)
    requires
        0 <= i < data.times_ms.len(),
        data.times_ms@[i] == data.bias_ms,
        width <= i32::MAX,
        height <= i32::MAX,
        forward_px(ink, data.bias_ms, data.times_ms@[0], data.times_ms@.last(), width)
            <= i32::MAX,
        backward_px(ink, data.bias_ms, data.times_ms@[0], data.times_ms@.last(), height)
            <= i32::MAX,
    ensures
        curve_point(ink, data, width, height, GraphOrientation::Vertical, i).0 == mark_of(
            ink,
            data,
            width,
            height,
            GraphOrientation::Vertical,
        ),
        curve_point(ink, data, width, height, GraphOrientation::Horizontal, i).1 == mark_of(
            ink,
            data,
            width,
            height,
            GraphOrientation::Horizontal,
        ),
        mark_of(ink, data, width, height, GraphOrientation::Vertical) == forward_px(
            ink,
            data.bias_ms,
            data.times_ms@[0],
            data.times_ms@[data.times_ms.len() - 1],
            width,
        ),
        mark_of(ink, data, width, height, GraphOrientation::Horizontal) == backward_px(
            ink,
            data.bias_ms,
            data.times_ms@[0],
            data.times_ms@[data.times_ms.len() - 1],
            height,
        ),
        curve_point(ink, data, width, height, GraphOrientation::Vertical, i).1 == backward_px(
            ink,
            curve_height(ink, data, i),
            span_of(ink.m, data.y_axis@).0,
            span_of(ink.m, data.y_axis@).1,
            height,
        ) as i32,
        curve_point(ink, data, width, height, GraphOrientation::Horizontal, i).0 == forward_px(
            ink,
            curve_height(ink, data, i),
            span_of(ink.m, data.y_axis@).0,
            span_of(ink.m, data.y_axis@).1,
            width,
        ) as i32,
{
}

/// The pixel that the curve of a convolution goes through at a column.
pub open spec fn curve_point(
    ink: Ink,
    data: HeatData,
    width: u32,
    height: u32,
    orientation: GraphOrientation,
    i: int,
) -> (i32, i32) {
    let times = data.times_ms@;
    let (y_lo, y_hi) = span_of(ink.m, data.y_axis@);
    let y = curve_height(ink, data, i);
    if orientation == GraphOrientation::Vertical {
        (
            forward_px(ink, times[i], times[0], times.last(), width) as i32,
            backward_px(ink, y, y_lo, y_hi, height) as i32,
        )
    } else {
        (
            forward_px(ink, y, y_lo, y_hi, width) as i32,
            backward_px(ink, times[i], times[0], times.last(), height) as i32,
        )
    }
}

/// The curve of a convolution.
pub open spec fn curve_of(
    ink: Ink,
    data: HeatData,
    width: u32,
    height: u32,
    orientation: GraphOrientation,
) -> Seq<(i32, i32)> {
    Seq::new(
        data.convolution@.len(),
        |i: int| curve_point(ink, data, width, height, orientation, i),
    )
}

fn curve_points<C: Fn(Term) -> Real, L: Fn(u32, usize) -> Place, R: Fn(Count) -> u32>(
    painter: &Painter<C, L, R>,
    data: &HeatData,
    width: u32,
    height: u32,
    orientation: GraphOrientation,
) -> (line: Vec<(i32, i32)>)
    requires
        painter.ready(),
        data.times_ms.len() == data.convolution.len() > 0,
    ensures
        forall|ink: Ink| #[trigger]
            painter.follows(ink) ==> line@ == curve_of(ink, *data, width, height, orientation),
{
    let num: &Numerics<C, L> = &painter.num;
    let times: &Vec<Real> = data.times_ms;
    let conv: &Vec<Real> = data.convolution;
    let first: Real = times[0];
    let last: Real = times[times.len() - 1];
    let (y_lo, y_hi): (Real, Real) = axis_minmax(num, data.y_axis);
    let (from, to): (usize, usize) = core_range(conv.len(), data.edge_discard);
    let core: Vec<Real> = part_of(conv, from, to);
    let c_lo: Real = lowest(&core);
    let c_hi: Real = highest(&core);
    let most: Real = Real { bits: NINE_TENTHS };
    let least: Real = Real { bits: TENTH };
    let y_from: Real = num.plus(num.times(y_lo, most), num.times(y_hi, least));
    let y_to: Real = num.plus(num.times(y_lo, least), num.times(y_hi, most));
    let ghost vertical = orientation == GraphOrientation::Vertical;
    assert(core@ == curve_core(conv@, data.edge_discard));
    let mut line: Vec<(i32, i32)> = Vec::new();
    let mut i: usize = 0;
    while i < conv.len()
        invariant
            i <= conv.len(),
            painter.ready(),
            num == &painter.num,
            times == data.times_ms,
            conv == data.convolution,
            times.len() == conv.len() > 0,
            first == times@[0],
            last == times@.last(),
            vertical == (orientation == GraphOrientation::Vertical),
            line.len() == i,
            forall|ink: Ink| #[trigger]
                painter.follows(ink) ==> (y_lo, y_hi) == span_of(ink.m, data.y_axis@) && y_from
                    == ink.m.plus(ink.m.times(y_lo, most), ink.m.times(y_hi, least)) && y_to
                    == ink.m.plus(ink.m.times(y_lo, least), ink.m.times(y_hi, most)),
            most == (Real { bits: NINE_TENTHS }),
            least == (Real { bits: TENTH }),
            c_lo == peaks::lowest_of(curve_core(conv@, data.edge_discard)),
            c_hi == peaks::highest_of(curve_core(conv@, data.edge_discard)),
            forall|ink: Ink, k: int|
                #![trigger painter.follows(ink), line@[k]]
                painter.follows(ink) && 0 <= k < i ==> line@[k] == curve_point(
                    ink,
                    *data,
                    width,
                    height,
                    orientation,
                    k,
                ),
        decreases conv.len() - i,
    {
        let y: Real = lerp(num, y_from, y_to, norm01(num, conv[i], c_lo, c_hi));
        let point: (i32, i32) = if orientation == GraphOrientation::Vertical {
            (
                x_to_px(painter, times[i], first, last, width) as i32,
                y_to_px(painter, y, y_lo, y_hi, height) as i32,
            )
        } else {
            (
                x_to_px(painter, y, y_lo, y_hi, width) as i32,
                y_to_px(painter, times[i], first, last, height) as i32,
            )
        };
        assert forall|ink: Ink| #[trigger] painter.follows(ink) implies point == curve_point(
            ink,
            *data,
            width,
            height,
            orientation,
            i as int,
        ) by {
            assert(painter.num.follows(ink.m));
            assert(y == curve_height(ink, *data, i as int));
        }
        line.push(point);
        i += 1;
    }
    assert forall|ink: Ink| #[trigger] painter.follows(ink) implies line@ == curve_of(
        ink,
        *data,
        width,
        height,
        orientation,
    ) by {
        assert(line@ =~= curve_of(ink, *data, width, height, orientation));
    }
    line
}

/// Whether these are the colours of the cells of a matrix, whose colours range over
/// `span`.
pub open spec fn coloured(
    ink: Ink,
    matrix: Seq<Real>,
    span: (Real, Real),
    colours: Seq<[u8; 3]>,
) -> bool {
    &&& colours.len() == matrix.len()
    &&& forall|i: int|
        0 <= i < colours.len() ==> (#[trigger] colours[i])@ == colour_of(
            ink,
            share_of(ink.m, matrix[i], span.0, span.1),
        )
}

fn cell_colours<C: Fn(Term) -> Real, L: Fn(u32, usize) -> Place, R: Fn(Count) -> u32>(
    painter: &Painter<C, L, R>,
    matrix: &Vec<Real>,
    span: (Real, Real),
) -> (colours: Vec<[u8; 3]>)
    requires
        painter.ready(),
    ensures
        colours.len() == matrix.len(),
        forall|ink: Ink| #[trigger]
            painter.follows(ink) ==> coloured(ink, matrix@, span, colours@),
{
    let mut colours: Vec<[u8; 3]> = Vec::new();
    let mut i: usize = 0;
    while i < matrix.len()
        invariant
            i <= matrix.len(),
            painter.ready(),
            colours.len() == i,
            forall|ink: Ink, k: int|
                #![trigger painter.follows(ink), colours@[k]]
                painter.follows(ink) && 0 <= k < i ==> colours@[k]@ == colour_of(
                    ink,
                    share_of(ink.m, matrix@[k], span.0, span.1),
                ),
        decreases matrix.len() - i,
    {
        let share: Real = norm01(&painter.num, matrix[i], span.0, span.1);
        let colour: [u8; 3] = viridis(painter, share);
        assert forall|ink: Ink| #[trigger] painter.follows(ink) implies colour@ == colour_of(
            ink,
            share_of(ink.m, matrix@[i as int], span.0, span.1),
        ) by {
            assert(painter.num.follows(ink.m));
        }
        colours.push(colour);
        i += 1;
    }
    colours
}

/// Why there is no heat plot, if there is none.
pub open spec fn heat_fault(data: HeatData) -> Option<Seq<char>> {
    plot::heat_shape_fault(
        data.matrix.len() as int,
        data.rows as int,
        data.cols as int,
        data.times_ms.len() as int,
        data.y_axis.len() as int,
        data.convolution.len() as int,
    )
}

/// Whether an image is the heat plot: the cells in their colours, the red mark of
/// the bias over them, and the white curve of the convolution over both.
pub open spec fn shows(
    ink: Ink,
    data: HeatData,
    width: u32,
    height: u32,
    orientation: GraphOrientation,
    image: Seq<u8>,
) -> bool {
    exists|span: (Real, Real), colours: Seq<[u8; 3]>|
        {
            &&& #[trigger] colours_span(ink.m, data.matrix@, data.percentiles, span)
            &&& #[trigger] coloured(ink, data.matrix@, span, colours)
            &&& forall|x: int, y: int|
                raster::in_frame(width, height, x, y) ==> #[trigger] raster::pixel(
                    image,
                    width as int,
                    x,
                    y,
                ) == plot::heat_pixel(
                    colours,
                    data.rows as int,
                    data.cols as int,
                    width as int,
                    height as int,
                    orientation,
                    mark_of(ink, data, width, height, orientation),
                    curve_of(ink, data, width, height, orientation),
                    x,
                    y,
                )
        }
}

/// Draws a heat plot.
pub fn heat_plot<C: Fn(Term) -> Real, L: Fn(u32, usize) -> Place, R: Fn(Count) -> u32>(
    painter: &Painter<C, L, R>,
    data: &HeatData,
    width: u32,
    height: u32,
    orientation: GraphOrientation,
) -> (out: Result<Vec<u8>, String>)
    requires
        painter.ready(),
        width > 0,
        raster::addressable(width, height),
        data.matrix.len() < usize::MAX,
        data.percentiles matches Some((p, q)) ==> p <= 100 && q <= 100,
    ensures
        match out {
            Err(e) => heat_fault(*data) == Some(e@),
            Ok(image) => {
                &&& heat_fault(*data) is None
                &&& raster::frames(image@, width, height)
                &&& forall|ink: Ink| #[trigger]
                    painter.follows(ink) ==> shows(
                        ink,
                        *data,
                        width,
                        height,
                        orientation,
                        image@,
                    )
            },
        },
{
    match check_heat_shape(
        data.matrix.len(),
        data.rows,
        data.cols,
        data.times_ms.len(),
        data.y_axis.len(),
        data.convolution.len(),
    ) {
        Ok(()) => {},
        Err(e) => {
            return Err(e);
        },
    }
    let num: &Numerics<C, L> = &painter.num;
    let span: (Real, Real) = value_range(num, data.matrix, data.percentiles);
    let colours: Vec<[u8; 3]> = cell_colours(painter, data.matrix, span);
    let times: &Vec<Real> = data.times_ms;
    let first: Real = times[0];
    let last: Real = times[times.len() - 1];
    let mark: u32 = if orientation == GraphOrientation::Vertical {
        x_to_px(painter, data.bias_ms, first, last, width)
    } else {
        y_to_px(painter, data.bias_ms, first, last, height)
    };
    let line: Vec<(i32, i32)> = curve_points(painter, data, width, height, orientation);
    let image: Vec<u8> = heat_plot_image(
        &colours,
        data.rows,
        data.cols,
        width,
        height,
        orientation,
        mark,
        &line,
    );
    assert forall|ink: Ink| #[trigger] painter.follows(ink) implies shows(
        ink,
        *data,
        width,
        height,
        orientation,
        image@,
    ) by {
        assert(painter.num.follows(ink.m));
        assert(colours_span(ink.m, data.matrix@, data.percentiles, span));
        assert(coloured(ink, data.matrix@, span, colours@));
        assert(mark == mark_of(ink, *data, width, height, orientation));
        assert(line@ == curve_of(ink, *data, width, height, orientation));
    }
    Ok(image)
}

// ---------------------------------------------------------------------------
// The heat plots of an estimate
// ---------------------------------------------------------------------------

/// What one of the heat plots of an estimate is drawn from.
pub open spec fn data_of<'a>(plot: &'a BiasPlotData, job: HeatJob) -> HeatData<'a> {
    HeatData {
        matrix: match job.source {
            PlotSource::FreqDomain => &plot.freq_domain,
            PlotSource::BeatDigest => &plot.beat_digest,
            PlotSource::PostKernel => &plot.post_kernel,
        },
        rows: match job.source {
            PlotSource::FreqDomain => plot.freq_rows,
            PlotSource::BeatDigest => plot.digest_rows,
            PlotSource::PostKernel => plot.post_rows,
        },
        cols: plot.cols,
        times_ms: &plot.times_ms,
        y_axis: match job.axis {
            PlotAxis::FreqsKhz => &plot.freqs_khz,
            PlotAxis::BeatIndices => &plot.beat_indices,
        },
        convolution: &plot.convolution,
        edge_discard: plot.edge_discard,
        bias_ms: plot.bias_ms,
        percentiles: job.percentiles,
    }
}

fn heat_data<'a>(plot: &'a BiasPlotData, job: &HeatJob) -> (out: HeatData<'a>)
    ensures
        out == data_of(plot, *job),
{
    HeatData {
        matrix: match job.source {
            PlotSource::FreqDomain => &plot.freq_domain,
            PlotSource::BeatDigest => &plot.beat_digest,
            PlotSource::PostKernel => &plot.post_kernel,
        },
        rows: match job.source {
            PlotSource::FreqDomain => plot.freq_rows,
            PlotSource::BeatDigest => plot.digest_rows,
            PlotSource::PostKernel => plot.post_rows,
        },
        cols: plot.cols,
        times_ms: &plot.times_ms,
        y_axis: match job.axis {
            PlotAxis::FreqsKhz => &plot.freqs_khz,
            PlotAxis::BeatIndices => &plot.beat_indices,
        },
        convolution: &plot.convolution,
        edge_discard: plot.edge_discard,
        bias_ms: plot.bias_ms,
        percentiles: job.percentiles,
    }
}

/// What an estimate gives to plot has a consistent shape in all three plots.
pub proof fn estimates_can_be_plotted(
    plot: BiasPlotData,
    stem: Seq<char>,
    jobs: Seq<HeatJob>,
    i: int,
)
    requires
        plot.wf(),
        plot.freq_rows > 0,
        plot.digest_rows > 0,
        plot.cols > 0,
        plot::heat_jobs(stem, plot.post_target, jobs),
        0 <= i < 3,
    ensures
        heat_fault(data_of(&plot, jobs[i])) is None,
{
    assert(i == 0 || i == 1 || i == 2);
    assert(plot.freq_domain.len() <= usize::MAX && plot.beat_digest.len() <= usize::MAX);
    assert(plot.post_kernel.len() <= usize::MAX);
}

/// Whether a file is a heat plot.
pub open spec fn heat_file<
    C: Fn(Term) -> Real,
    L: Fn(u32, usize) -> Place,
    R: Fn(Count) -> u32,
>(
    painter: Painter<C, L, R>,
    data: HeatData,
    orientation: GraphOrientation,
    file: Seq<u8>,
) -> bool {
    exists|image: Seq<u8>|
        {
            &&& #[trigger] raster::frames(image, HEAT_SIDE, HEAT_SIDE)
            &&& forall|ink: Ink| #[trigger]
                painter.follows(ink) ==> shows(
                    ink,
                    data,
                    HEAT_SIDE,
                    HEAT_SIDE,
                    orientation,
                    image,
                )
            &&& file == plot::png_file(HEAT_SIDE, HEAT_SIDE, image)
        }
}

/// A file that is to be written.
#[derive(Debug, Clone)]
pub struct PlotFile {
    pub name: String,
    pub bytes: Vec<u8>,
}

/// The plots that were drawn, in the order in which they are to be written, and what is
/// wrong with the one behind them, if anything is.
#[derive(Debug, Clone)]
pub struct DrawnPlots {
    pub files: Vec<PlotFile>,
    pub fault: Option<String>,
}

/// Whether a file is the plot that a job asks for.
pub open spec fn job_drawn<
    C: Fn(Term) -> Real,
    L: Fn(u32, usize) -> Place,
    R: Fn(Count) -> u32,
>(
    painter: Painter<C, L, R>,
    plot: &BiasPlotData,
    job: HeatJob,
    orientation: GraphOrientation,
    file: PlotFile,
) -> bool {
    &&& heat_fault(data_of(plot, job)) is None
    &&& file.name@ == job.file_name@
    &&& heat_file(painter, data_of(plot, job), orientation, file.bytes@)
}

fn draw_job<
    C: Fn(Term) -> Real,
    L: Fn(u32, usize) -> Place,
    R: Fn(Count) -> u32,
>(
    painter: &Painter<C, L, R>,
    plot: &BiasPlotData,
    job: &HeatJob,
    orientation: GraphOrientation,
) -> (out: Result<PlotFile, String>)
    requires
        painter.ready(),
        data_of(plot, *job).matrix.len() < usize::MAX,
        job.percentiles matches Some((p, q)) ==> p <= 100 && q <= 100,
    ensures
        match out {
            Ok(file) => job_drawn(*painter, plot, *job, orientation, file),
            Err(e) => heat_fault(data_of(plot, *job)) == Some(e@),
        },
{
    let data: HeatData = heat_data(plot, job);
    let image: Vec<u8> = match heat_plot(painter, &data, HEAT_SIDE, HEAT_SIDE, orientation) {
        Ok(image) => image,
        Err(e) => {
            return Err(e);
        },
    };
    let name: String = copy_of(&job.file_name);
    let bytes: Vec<u8> = match rgba_png(name.as_str(), HEAT_SIDE, HEAT_SIDE, &image) {
        Ok(bytes) => bytes,
        Err(e) => {
            return Err(e);
        },
    };
    assert(heat_file(*painter, data, orientation, bytes@)) by {
        assert(raster::frames(image@, HEAT_SIDE, HEAT_SIDE));
    }
    Ok(PlotFile { name, bytes })
}

/// What is drawn for some jobs: a plot for each, up to the first whose shape is wrong.
pub open spec fn jobs_drawn<
    C: Fn(Term) -> Real,
    L: Fn(u32, usize) -> Place,
    R: Fn(Count) -> u32,
>(
    painter: Painter<C, L, R>,
    plot: &BiasPlotData,
    jobs: Seq<HeatJob>,
    orientation: GraphOrientation,
    out: DrawnPlots,
) -> bool {
    &&& out.files.len() <= jobs.len()
    &&& forall|k: int|
        0 <= k < out.files.len() ==> job_drawn(
            painter,
            plot,
            jobs[k],
            orientation,
            #[trigger] out.files@[k],
        )
    &&& match out.fault {
        None => out.files.len() == jobs.len(),
        Some(e) => out.files.len() < jobs.len() && heat_fault(
            data_of(plot, jobs[out.files.len() as int]),
        ) == Some(e@),
    }
}

fn draw_jobs<
    C: Fn(Term) -> Real,
    L: Fn(u32, usize) -> Place,
    R: Fn(Count) -> u32,
>(
    painter: &Painter<C, L, R>,
    plot: &BiasPlotData,
    jobs: &Vec<HeatJob>,
    orientation: GraphOrientation,
) -> (out: DrawnPlots)
    requires
        painter.ready(),
        fits_memory(*plot),
        forall|k: int|
            0 <= k < jobs.len() ==> ((#[trigger] jobs@[k]).percentiles matches Some((p, q)) ==> p
                <= 100 && q <= 100),
    ensures
        jobs_drawn(*painter, plot, jobs@, orientation, out),
{
    let mut files: Vec<PlotFile> = Vec::new();
    let mut i: usize = 0;
    while i < jobs.len()
        invariant
            i <= jobs.len(),
            files.len() == i,
            painter.ready(),
            fits_memory(*plot),
            forall|k: int|
                0 <= k < jobs.len() ==> ((#[trigger] jobs@[k]).percentiles matches Some((p, q))
                    ==> p <= 100 && q <= 100),
            forall|k: int|
                0 <= k < i ==> job_drawn(
                    *painter,
                    plot,
                    jobs@[k],
                    orientation,
                    #[trigger] files@[k],
                ),
        decreases jobs.len() - i,
    {
        match draw_job(painter, plot, &jobs[i], orientation) {
            Ok(file) => {
                files.push(file);
            },
            Err(e) => {
                return DrawnPlots { files, fault: Some(e) };
            },
        }
        i += 1;
    }
    DrawnPlots { files, fault: None }
}

/// Whether every matrix has fewer cells than a machine word can count.
pub open spec fn fits_memory(plot: BiasPlotData) -> bool {
    &&& plot.freq_domain.len() < usize::MAX
    &&& plot.beat_digest.len() < usize::MAX
    &&& plot.post_kernel.len() < usize::MAX
}

/// What is to be written for an estimate: nothing, not even a directory, where the stem is
/// empty or there are no columns; else the plots that could be drawn.
pub open spec fn plots_drawn<
    C: Fn(Term) -> Real,
    L: Fn(u32, usize) -> Place,
    R: Fn(Count) -> u32,
>(
    painter: Painter<C, L, R>,
    stem: Seq<char>,
    plot: &BiasPlotData,
    orientation: GraphOrientation,
    out: Result<DrawnPlots, String>,
) -> bool {
    if text::trimmed(stem).len() == 0 {
        out is Err && out->Err_0@ == "plot stem is empty"@
    } else if plot.cols == 0 {
        out is Err && out->Err_0@ == "plot has zero columns"@
    } else {
        out is Ok && exists|jobs: Seq<HeatJob>| #[trigger]
            plot::heat_jobs(stem, plot.post_target, jobs) && jobs_drawn(
                painter,
                plot,
                jobs,
                orientation,
                out->Ok_0,
            )
    }
}

/// The files that are to be written, into a directory that is made before the first of
/// them.
pub fn write_nine_or_null_plots_oriented<
    C: Fn(Term) -> Real,
    L: Fn(u32, usize) -> Place,
    R: Fn(Count) -> u32,
>(
    painter: &Painter<C, L, R>,
    stem: &str,
    plot: &BiasPlotData,
    orientation: GraphOrientation,
) -> (out: Result<DrawnPlots, String>)
    requires
        painter.ready(),
        fits_memory(*plot),
    ensures
        plots_drawn(*painter, stem@, plot, orientation, out),
{
    let jobs: Vec<HeatJob> = match nine_or_null_jobs(stem, plot.cols, plot.post_target) {
        Ok(jobs) => jobs,
        Err(e) => {
            return Err(e);
        },
    };
    assert forall|k: int| 0 <= k < jobs.len() implies ((#[trigger] jobs@[k]).percentiles matches Some(
        (p, q),
    ) ==> p <= 100 && q <= 100) by {
        assert(k == 0 || k == 1 || k == 2);
    }
    let drawn: DrawnPlots = draw_jobs(painter, plot, &jobs, orientation);
    assert(plot::heat_jobs(stem@, plot.post_target, jobs@));
    Ok(drawn)
}

/// The files that are to be written, with time running to the right.
pub fn write_nine_or_null_plots<
    C: Fn(Term) -> Real,
    L: Fn(u32, usize) -> Place,
    R: Fn(Count) -> u32,
>(painter: &Painter<C, L, R>, stem: &str, plot: &BiasPlotData) -> (out: Result<DrawnPlots, String>)
    requires
        painter.ready(),
        fits_memory(*plot),
    ensures
        plots_drawn(*painter, stem@, plot, GraphOrientation::Vertical, out),
{
    write_nine_or_null_plots_oriented(painter, stem, plot, GraphOrientation::Vertical)
}

/// The plots of every estimate are drawn in full: there is nothing wrong with its shape.
pub proof fn estimates_are_drawn_in_full<
    C: Fn(Term) -> Real,
    L: Fn(u32, usize) -> Place,
    R: Fn(Count) -> u32,
>(
    painter: Painter<C, L, R>,
    stem: Seq<char>,
    plot: BiasPlotData,
    orientation: GraphOrientation,
    out: Result<DrawnPlots, String>,
)
    requires
        plots_drawn(painter, stem, &plot, orientation, out),
        text::trimmed(stem).len() > 0,
        plot.wf(),
        plot.cols > 0,
        plot.freq_rows > 0,
        plot.digest_rows > 0,
    ensures
        out is Ok,
        out->Ok_0.fault is None,
        out->Ok_0.files.len() == 3,
{
    let jobs = choose|jobs: Seq<HeatJob>| #[trigger]
        plot::heat_jobs(stem, plot.post_target, jobs) && jobs_drawn(
            painter,
            &plot,
            jobs,
            orientation,
            out->Ok_0,
        );
    if out->Ok_0.fault is Some {
        estimates_can_be_plotted(plot, stem, jobs, out->Ok_0.files.len() as int);
    }
}

/// The three plots of an estimate show its three matrices, each over the axis that its rows
/// stand on, all over the same times and with the same curve and mark. The spectrum is shown in
/// all its range, the digests between their tenth and ninetieth percentiles, and what the
/// kernel made between its third and its ninety-seventh.
pub proof fn each_matrix_has_its_plot(
    plot: BiasPlotData,
    stem: Seq<char>,
    jobs: Seq<HeatJob>,
    i: int,
)
    requires
        plot::heat_jobs(stem, plot.post_target, jobs),
        0 <= i < jobs.len(),
    ensures
        jobs.len() == 3,
        ({
            let data = data_of(&plot, jobs[i]);
            &&& data.cols == plot.cols
            &&& data.times_ms@ == plot.times_ms@
            &&& data.convolution@ == plot.convolution@
            &&& data.edge_discard == plot.edge_discard
            &&& data.bias_ms == plot.bias_ms
            &&& i == 0 ==> data.matrix@ == plot.freq_domain@ && data.rows == plot.freq_rows
                && data.y_axis@ == plot.freqs_khz@ && data.percentiles is None
            &&& i == 1 ==> data.matrix@ == plot.beat_digest@ && data.rows == plot.digest_rows
                && data.y_axis@ == plot.beat_indices@ && data.percentiles == Some((10u32, 90u32))
            &&& i == 2 ==> data.matrix@ == plot.post_kernel@ && data.rows == plot.post_rows
                && data.percentiles == Some((3u32, 97u32)) && data.y_axis@ == (
            if plot.post_target == crate::model::KernelTarget::Accumulator {
                plot.freqs_khz@
            } else {
                plot.beat_indices@
            })
        }),
        jobs[0].file_name@ == "bias-freqdomain-"@ + stem + ".png"@,
        jobs[1].file_name@ == "bias-beatdigest-"@ + stem + ".png"@,
        jobs[2].file_name@ == "bias-postkernel-"@ + stem + ".png"@,
{
}

/// Every pixel of a heat plot is white on the curve, red on the mark off the curve, and
/// elsewhere has the colour that its cell's value takes between the bounds of the colours.
pub proof fn cells_are_coloured_by_their_values(
    ink: Ink,
    data: HeatData,
    width: u32,
    height: u32,
    orientation: GraphOrientation,
    image: Seq<u8>,
    x: int,
    y: int,
) -> (span: (Real, Real))
    requires
        shows(ink, data, width, height, orientation, image),
        0 <= x < width,
        0 <= y < height,
        data.rows > 0,
        data.cols > 0,
        data.matrix.len() == data.rows * data.cols,
    ensures
        colours_span(ink.m, data.matrix@, data.percentiles, span),
        ({
            let line = curve_of(ink, data, width, height, orientation);
            let mark = mark_of(ink, data, width, height, orientation);
            let cell = plot::heat_cell(
                orientation,
                data.rows as int,
                data.cols as int,
                width as int,
                height as int,
                x,
                y,
            );
            let on_line = line.len() >= 3 && plot::on_path(line, x, y);
            let marked = mark == (if orientation == GraphOrientation::Vertical {
                x
            } else {
                y
            });
            let value = data.matrix@[cell.0 * data.cols + cell.1];
            let shown = raster::pixel(image, width as int, x, y);
            &&& on_line ==> shown == seq![255u8, 255, 255, 255]
            &&& !on_line && marked ==> shown == seq![220u8, 20, 20, 255]
            &&& !on_line && !marked ==> shown == colour_of(
                ink,
                share_of(ink.m, value, span.0, span.1),
            ).push(255)
        }),
{
    let (span, colours) = choose|span: (Real, Real), colours: Seq<[u8; 3]>|
        {
            &&& #[trigger] colours_span(ink.m, data.matrix@, data.percentiles, span)
            &&& #[trigger] coloured(ink, data.matrix@, span, colours)
            &&& forall|x: int, y: int|
                raster::in_frame(width, height, x, y) ==> #[trigger] raster::pixel(
                    image,
                    width as int,
                    x,
                    y,
                ) == plot::heat_pixel(
                    colours,
                    data.rows as int,
                    data.cols as int,
                    width as int,
                    height as int,
                    orientation,
                    mark_of(ink, data, width, height, orientation),
                    curve_of(ink, data, width, height, orientation),
                    x,
                    y,
                )
        };
    let cell = plot::heat_cell(
        orientation,
        data.rows as int,
        data.cols as int,
        width as int,
        height as int,
        x,
        y,
    );
    plot::heat_plots_stand_upright(
        orientation,
        data.rows as int,
        data.cols as int,
        width as int,
        height as int,
        x,
        y,
        x,
        y,
    );
    crate::matrix::lemma_cell(data.rows as int, data.cols as int, cell.0, cell.1);
    assert(raster::in_frame(width, height, x, y));
    assert(raster::pixel(image, width as int, x, y) == plot::heat_pixel(
        colours,
        data.rows as int,
        data.cols as int,
        width as int,
        height as int,
        orientation,
        mark_of(ink, data, width, height, orientation),
        curve_of(ink, data, width, height, orientation),
        x,
        y,
    ));
    assert(colours[cell.0 * data.cols + cell.1]@ == colour_of(
        ink,
        share_of(ink.m, data.matrix@[cell.0 * data.cols + cell.1], span.0, span.1),
    ));
    span
}

} // verus!
