//! Figures of a list of numbers, and the bias that is read from a convolution.

use crate::model::BiasEstimate;
use crate::number;
use crate::number::{Real, THOUSAND};
use crate::numeric::{Meaning, Numerics, Place, Term};
use crate::peaks;
use crate::peaks::{
    argmax, clip_range, fingerprint_offsets, highest, lowest, sorted_values, stabilized_peak_index,
    EDGE_DISCARD,
};
use crate::trace;
use crate::trace::{trace_convolution, BiasTraceConv, BiasTraceResult};
use vstd::prelude::*;

verus! {

/// The bit pattern of one.
pub const ONE: u64 = 0x3ff0_0000_0000_0000;

/// The bit pattern of 1e-12. A smaller difference counts as none.
pub const TINY: u64 = 0x3d71_9799_812d_ea11;

/// The bit pattern of 0.002: how far below a peak its neighbours still count as
/// the peak, as a share of it.
pub const PEAK_STABILIZE_REL_EPS: u64 = 0x3f60_624d_d2f1_a9fc;

/// The bit pattern of 0.5: what is as near to the peak, in milliseconds, is no
/// rival to it.
pub const NEARNESS_OFFSET: u64 = 0x3fe0_0000_0000_0000;

/// The bit pattern of 10.
pub const NEARNESS_SCALAR: u64 = 0x4024_0000_0000_0000;

/// The bit pattern of 1.5.
pub const NEARNESS_POWER: u64 = 0x3ff8_0000_0000_0000;

/// The bit pattern of 0.2.
pub const INFLUENCE_POWER: u64 = 0x3fc9_9999_9999_999a;

/// The bit pattern of 0.83, the confidence that counts as full.
pub const THEORETICAL_UPPER: u64 = 0x3fea_8f5c_28f5_c28f;

pub open spec fn one() -> Real {
    Real { bits: ONE }
}

// ---------------------------------------------------------------------------
// Sums
// ---------------------------------------------------------------------------

/// The sum of the values, added up from the first to the last.
pub open spec fn sum_of(m: Meaning, values: Seq<Real>) -> Real
    decreases values.len(),
{
    if values.len() == 0 {
        number::zero()
    } else {
        m.plus(sum_of(m, values.drop_last()), values.last())
    }
}

fn sum<C: Fn(Term) -> Real, L: Fn(u32, usize) -> Place>(
    num: &Numerics<C, L>,
    values: &Vec<Real>,
) -> (out: Real)
    requires
        num.ready(),
    ensures
        forall|m: Meaning| #[trigger] num.follows(m) ==> out == sum_of(m, values@),
{
    let mut out: Real = Real { bits: 0 };
    let mut i: usize = 0;
    while i < values.len()
        invariant
            i <= values.len(),
            num.ready(),
            forall|m: Meaning| #[trigger]
                num.follows(m) ==> out == sum_of(m, values@.take(i as int)),
        decreases values.len() - i,
    {
        assert(values@.take(i + 1).drop_last() =~= values@.take(i as int));
        out = num.plus(out, values[i]);
        i += 1;
    }
    assert(values@.take(i as int) =~= values@);
    out
}

/// The mean of the values.
pub open spec fn mean_of(m: Meaning, values: Seq<Real>) -> Real {
    m.over(sum_of(m, values), m.whole(values.len() as int))
}

pub fn mean<C: Fn(Term) -> Real, L: Fn(u32, usize) -> Place>(
    num: &Numerics<C, L>,
    values: &Vec<Real>,
) -> (out: Real)
    requires
        num.ready(),
    ensures
        forall|m: Meaning| #[trigger] num.follows(m) ==> out == mean_of(m, values@),
{
    num.over(sum(num, values), num.count(values.len()))
}

/// The squares of how far the values stand from `mid`.
pub open spec fn squares_of(m: Meaning, values: Seq<Real>, mid: Real) -> Seq<Real> {
    Seq::new(
        values.len(),
        |i: int| m.times(m.minus(values[i], mid), m.minus(values[i], mid)),
    )
}

/// The standard deviation of the values, taken as the whole population.
pub open spec fn deviation_of(m: Meaning, values: Seq<Real>) -> Real {
    if values.len() == 0 {
        number::zero()
    } else {
        m.root(mean_of(m, squares_of(m, values, mean_of(m, values))))
    }
}

pub fn stdev_population<C: Fn(Term) -> Real, L: Fn(u32, usize) -> Place>(
    num: &Numerics<C, L>,
    values: &Vec<Real>,
) -> (out: Real)
    requires
        num.ready(),
    ensures
        forall|m: Meaning| #[trigger] num.follows(m) ==> out == deviation_of(m, values@),
{
    if values.len() == 0 {
        return Real { bits: 0 };
    }
    let mid: Real = mean(num, values);
    let mut squares: Vec<Real> = Vec::new();
    let mut i: usize = 0;
    while i < values.len()
        invariant
            i <= values.len(),
            num.ready(),
            squares.len() == i,
            forall|m: Meaning, k: int|
                #![trigger num.follows(m), squares@[k]]
                num.follows(m) && 0 <= k < i ==> squares@[k] == m.times(
                    m.minus(values@[k], mid),
                    m.minus(values@[k], mid),
                ),
        decreases values.len() - i,
    {
        let d: Real = num.minus(values[i], mid);
        squares.push(num.times(d, d));
        i += 1;
    }
    let out: Real = num.value(Term::Root(mean(num, &squares)));
    assert forall|m: Meaning| #[trigger] num.follows(m) implies out == deviation_of(m, values@) by {
        assert(squares@ =~= squares_of(m, values@, mean_of(m, values@)));
    }
    out
}

/// Every value counts in a sum: one more is added to the sum of those before it. The mean
/// is the sum over the count.
pub proof fn sums_take_every_value(m: Meaning, values: Seq<Real>, next: Real)
    ensures
        sum_of(m, values.push(next)) == m.plus(sum_of(m, values), next),
        sum_of(m, Seq::empty()) == number::zero(),
        mean_of(m, values.push(next)) == m.over(
            m.plus(sum_of(m, values), next),
            m.whole(values.len() as int + 1),
        ),
{
    assert(values.push(next).drop_last() =~= values);
}

/// The deviation is the root of the mean of the squares of how far each value lies from the
/// mean, and there is none where there are no values.
pub proof fn deviations_square_the_distances(m: Meaning, values: Seq<Real>, squares: Seq<Real>)
    requires
        squares.len() == values.len(),
        forall|i: int|
            0 <= i < values.len() ==> #[trigger] squares[i] == m.times(
                m.minus(values[i], mean_of(m, values)),
                m.minus(values[i], mean_of(m, values)),
            ),
    ensures
        values.len() > 0 ==> deviation_of(m, values) == m.root(mean_of(m, squares)),
        values.len() == 0 ==> deviation_of(m, values) == number::zero(),
{
    assert(squares =~= squares_of(m, values, mean_of(m, values)));
}

// ---------------------------------------------------------------------------
// Ranges
// ---------------------------------------------------------------------------

/// The values, moved and scaled so that the lowest becomes zero and the highest
/// one. Values that hardly differ all become zero.
pub open spec fn normalized(m: Meaning, values: Seq<Real>) -> Seq<Real> {
    let lo = peaks::lowest_of(values);
    let range = m.minus(peaks::highest_of(values), lo);
    Seq::new(
        values.len(),
        |i: int|
            if range.absolute().less(Real { bits: TINY }) {
                number::zero()
            } else {
                m.over(m.minus(values[i], lo), range)
            },
    )
}

pub fn normalize_0_1<C: Fn(Term) -> Real, L: Fn(u32, usize) -> Place>(
    num: &Numerics<C, L>,
    values: &Vec<Real>,
) -> (out: Vec<Real>)
    requires
        num.ready(),
    ensures
        out.len() == values.len(),
        forall|m: Meaning| #[trigger] num.follows(m) ==> out@ == normalized(m, values@),
{
    let lo: Real = lowest(values);
    let range: Real = num.minus(highest(values), lo);
    let flat: bool = range.without_sign().is_less(Real { bits: TINY });
    let mut out: Vec<Real> = Vec::new();
    let mut i: usize = 0;
    while i < values.len()
        invariant
            i <= values.len(),
            num.ready(),
            out.len() == i,
            forall|m: Meaning, k: int|
                #![trigger num.follows(m), out@[k]]
                num.follows(m) && 0 <= k < i ==> out@[k] == (if flat {
                    number::zero()
                } else {
                    m.over(m.minus(values@[k], lo), range)
                }),
        decreases values.len() - i,
    {
        if flat {
            out.push(Real { bits: 0 });
        } else {
            out.push(num.over(num.minus(values[i], lo), range));
        }
        i += 1;
    }
    assert forall|m: Meaning| #[trigger] num.follows(m) implies out@ == normalized(m, values@) by {
        assert(out@ =~= normalized(m, values@));
    }
    out
}

/// Normalizing keeps the order of the values and puts them between zero, where the lowest
/// comes to stand, and one, where the highest does. Values that hardly differ all become
/// zero.
pub proof fn normalizing_keeps_the_order(m: Meaning, values: Seq<Real>, i: int, j: int)
    requires
        m.gives_numbers(),
        m.keeps_order(),
        m.knows_zero_and_one(),
        0 <= i < values.len(),
        0 <= j < values.len(),
        forall|k: int| 0 <= k < values.len() ==> (#[trigger] values[k]).finite(),
    ensures
        normalized(m, values).len() == values.len(),
        ({
            let (lo, hi) = (peaks::lowest_of(values), peaks::highest_of(values));
            let range = m.minus(hi, lo);
            let out = normalized(m, values);
            &&& lo.at_most(values[i]) && values[i].at_most(hi)
            &&& values.contains(lo) && values.contains(hi)
            &&& range.absolute().less(Real { bits: 0x3d71_9799_812d_ea11 }) ==> out[i]
                == number::zero()
            &&& !range.absolute().less(Real { bits: 0x3d71_9799_812d_ea11 }) && range.finite()
                && range.place() > 0 ==> {
                &&& values[i].at_most(values[j]) ==> out[i].at_most(out[j])
                &&& number::zero().at_most(out[i]) && out[i].at_most(number::unity())
                &&& values[i] == lo ==> out[i].place() == 0
                &&& values[i] == hi ==> out[i] == number::unity()
                &&& out[i] == m.over(m.minus(values[i], lo), range)
            }
        }),
{
    let (lo, hi) = (peaks::lowest_of(values), peaks::highest_of(values));
    let range = m.minus(hi, lo);
    peaks::extremes_are_values(values);
    assert(number::above_all().place() == 0x7ff0_0000_0000_0000int);
    assert(number::below_all().place() == -0x7ff0_0000_0000_0000int);
    assert(!values[i].less(lo) && !hi.less(values[i]));
    assert(lo.finite() && hi.finite());
    if !range.absolute().less(Real { bits: TINY }) && range.finite() && range.place() > 0 {
        let (a, b) = (m.minus(values[i], lo), m.minus(values[j], lo));
        assert(!a.nan() && !b.nan());
        assert(!m.over(a, range).nan() && !m.over(b, range).nan());
        if values[i].at_most(values[j]) {
            assert(a.at_most(b));
            assert(m.over(a, range).at_most(m.over(b, range)));
        }
        let low = m.minus(lo, lo);
        assert(low.place() == 0 && m.over(low, range).place() == 0);
        assert(low.at_most(a)) by {
            assert(lo.at_most(values[i]));
            assert(!low.nan());
        }
        assert(m.over(low, range).at_most(m.over(a, range))) by {
            assert(!m.over(low, range).nan());
        }
        assert(a.at_most(range)) by {
            assert(values[i].at_most(hi));
        }
        assert(m.over(range, range) == number::unity());
        assert(m.over(a, range).at_most(m.over(range, range)));
    }
}

/// The percentile `p` of a sorted list: the value at its place, or the values on
/// both sides of it, each with its share.
pub open spec fn at_percent(m: Meaning, sorted: Seq<Real>, p: u32) -> Real {
    if sorted.len() == 0 {
        number::zero()
    } else if sorted.len() == 1 {
        sorted[0]
    } else {
        let at = (m.place)(p, sorted.len() as usize);
        if at.lo == at.hi {
            sorted[at.lo as int]
        } else {
            m.plus(
                m.times(sorted[at.lo as int], m.minus(one(), at.frac)),
                m.times(sorted[at.hi as int], at.frac),
            )
        }
    }
}

/// Whether `out` is the percentile `p` of the values.
pub open spec fn percentile_is(m: Meaning, values: Seq<Real>, p: u32, out: Real) -> bool {
    exists|sorted: Seq<Real>| #[trigger]
        peaks::in_order(values, sorted) && out == at_percent(m, sorted, p)
}

/// A percentile stands in the list of the values, put in order, where its place is: it is
/// the value there, or lies between the two values next to it, the nearer to each the
/// larger its share.
pub proof fn percentiles_stand_in_order(
    m: Meaning,
    values: Seq<Real>,
    p: u32,
    out: Real,
    sorted: Seq<Real>,
)
    requires
        percentile_is(m, values, p, out),
        peaks::in_order(values, sorted),
        values.len() <= usize::MAX,
    ensures
        sorted.len() == values.len(),
        values.len() == 0 ==> out == number::zero(),
        values.len() == 1 ==> out == values[0],
        values.len() >= 2 ==> {
            let at = (m.place)(p, values.len() as usize);
            let (lo, hi) = (sorted[at.lo as int], sorted[at.hi as int]);
            &&& at.lo == at.hi ==> out == lo
            &&& at.lo != at.hi ==> out == m.plus(
                m.times(lo, m.minus(number::unity(), at.frac)),
                m.times(hi, at.frac),
            )
        },
{
    let own = choose|own: Seq<Real>| #[trigger]
        peaks::in_order(values, own) && out == at_percent(m, own, p);
    peaks::order_is_determined(values, own, sorted);
    if values.len() == 1 {
        peaks::values_in_order_are_rearranged(values, sorted);
        assert(values.contains(sorted[0]));
    }
}

pub fn percentile<C: Fn(Term) -> Real, L: Fn(u32, usize) -> Place>(
    num: &Numerics<C, L>,
    values: &Vec<Real>,
    p: u32,
) -> (out: Real)
    requires
        num.ready(),
        p <= 100,
    ensures
        forall|m: Meaning| #[trigger] num.follows(m) ==> percentile_is(m, values@, p, out),
{
    let sorted: Vec<Real> = sorted_values(values);
    assert(peaks::in_order(values@, sorted@));
    if sorted.len() == 0 {
        return Real { bits: 0 };
    }
    if sorted.len() == 1 {
        return sorted[0];
    }
    let at: Place = (num.place)(p, sorted.len());
    if at.lo == at.hi {
        sorted[at.lo]
    } else {
        num.plus(
            num.times(sorted[at.lo], num.minus(Real { bits: ONE }, at.frac)),
            num.times(sorted[at.hi], at.frac),
        )
    }
}

// ---------------------------------------------------------------------------
// Confidence
// ---------------------------------------------------------------------------

/// How strong a rival a value is to the peak: nothing at the median or below, and
/// one at the height of the peak.
pub open spec fn rivalry(m: Meaning, value: Real, median: Real, vmax: Real) -> Real {
    let denom = m.minus(vmax, median);
    if denom.absolute().less(Real { bits: TINY }) {
        number::zero()
    } else {
        m.over(m.minus(value, median), denom).raised(number::zero())
    }
}

pub fn rivaling_strength<C: Fn(Term) -> Real, L: Fn(u32, usize) -> Place>(
    num: &Numerics<C, L>,
    value: Real,
    median: Real,
    vmax: Real,
) -> (out: Real)
    requires
        num.ready(),
    ensures
        forall|m: Meaning| #[trigger] num.follows(m) ==> out == rivalry(m, value, median, vmax),
{
    let denom: Real = num.minus(vmax, median);
    if denom.without_sign().is_less(Real { bits: TINY }) {
        Real { bits: 0 }
    } else {
        num.over(num.minus(value, median), denom).at_least(Real { bits: 0 })
    }
}

/// How far from the peak a time stands, in tens of milliseconds, the nearest half
/// millisecond not counted.
pub open spec fn remoteness(m: Meaning, time: Real, peak: Real) -> Real {
    m.over(
        m.minus(m.minus(time, peak).absolute(), Real { bits: NEARNESS_OFFSET }).raised(
            number::zero(),
        ),
        Real { bits: NEARNESS_SCALAR },
    )
}

/// What a value at a time does against the peak.
pub open spec fn threat(
    m: Meaning,
    value: Real,
    time: Real,
    median: Real,
    vmax: Real,
    peak: Real,
) -> Real {
    m.times(
        m.fourth(rivalry(m, value, median, vmax)),
        m.power(remoteness(m, time, peak), Real { bits: NEARNESS_POWER }),
    )
}

/// What each value at its time does against the peak.
pub open spec fn threats_of(
    m: Meaning,
    values: Seq<Real>,
    times: Seq<Real>,
    median: Real,
    vmax: Real,
    peak: Real,
) -> Seq<Real> {
    Seq::new(values.len(), |i: int| threat(m, values[i], times[i], median, vmax, peak))
}

/// The confidence that goes with the mean of the threats.
pub open spec fn confidence_of(m: Meaning, influence: Real) -> Real {
    m.over(
        m.minus(one(), m.power(influence, Real { bits: INFLUENCE_POWER })),
        Real { bits: THEORETICAL_UPPER },
    ).capped(one()).raised(number::zero())
}

/// A confidence is a number from zero to one, whatever is computed.
pub proof fn confidences_are_shares(m: Meaning, influence: Real)
    ensures
        number::zero().at_most(confidence_of(m, influence)),
        confidence_of(m, influence).at_most(one()),
{
}

/// How strong a rival is: a higher value is no weaker a rival, a value at the median or
/// below it is none, and one as high as the peak is as strong as can be.
pub proof fn higher_values_rival_more(
    m: Meaning,
    low: Real,
    high: Real,
    median: Real,
    vmax: Real,
)
    requires
        m.gives_numbers(),
        m.keeps_order(),
        m.knows_zero_and_one(),
        low.at_most(high),
        median.finite(),
        m.minus(vmax, median).finite(),
        m.minus(vmax, median).place() > 0,
        !m.minus(vmax, median).less(Real { bits: 0x3d71_9799_812d_ea11 }),
    ensures
        rivalry(m, low, median, vmax).at_most(rivalry(m, high, median, vmax)),
        low.at_most(median) ==> rivalry(m, low, median, vmax).place() == 0,
        rivalry(m, vmax, median, vmax) == number::unity(),
        median.at_most(high) ==> rivalry(m, high, median, vmax).alike(
            m.over(m.minus(high, median), m.minus(vmax, median)),
        ),
{
    let d = m.minus(vmax, median);
    assert(m.minus(median, median).place() == 0);
    assert(m.over(m.minus(median, median), d).place() == 0);
    assert(!m.minus(low, median).nan() && !m.minus(high, median).nan());
    assert(m.minus(low, median).at_most(m.minus(high, median)));
    assert(!m.over(m.minus(low, median), d).nan());
    assert(!m.over(m.minus(high, median), d).nan());
    assert(m.over(m.minus(low, median), d).at_most(m.over(m.minus(high, median), d)));
    if low.at_most(median) {
        assert(m.minus(low, median).at_most(m.minus(median, median)));
        assert(m.over(m.minus(low, median), d).at_most(m.over(m.minus(median, median), d)));
    }
    if median.at_most(high) {
        assert(m.minus(median, median).at_most(m.minus(high, median)));
        assert(m.over(m.minus(median, median), d).at_most(m.over(m.minus(high, median), d)));
    }
    assert(m.over(d, d) == number::unity());
}

/// The farther from the peak a rival of a given height stands, the more it weighs, at every
/// distance; it does not matter to which side. Within half a millisecond it weighs nothing,
/// and from there on as the distance, less the half millisecond and in tens of
/// milliseconds, to the power of one and a half.
pub proof fn farther_rivals_weigh_more(
    m: Meaning,
    value: Real,
    near: Real,
    far: Real,
    median: Real,
    vmax: Real,
    peak: Real,
)
    requires
        m.gives_numbers(),
        m.keeps_order(),
        m.knows_zero_and_one(),
        m.minus(near, peak).absolute().at_most(m.minus(far, peak).absolute()),
        m.fourth(rivalry(m, value, median, vmax)).finite(),
        m.fourth(rivalry(m, value, median, vmax)).place() >= 0,
        !threat(m, value, near, median, vmax, peak).nan(),
        !threat(m, value, far, median, vmax, peak).nan(),
    ensures
        threat(m, value, near, median, vmax, peak).at_most(
            threat(m, value, far, median, vmax, peak),
        ),
        m.minus(near, peak).absolute() == m.minus(far, peak).absolute() ==> threat(
            m,
            value,
            near,
            median,
            vmax,
            peak,
        ) == threat(m, value, far, median, vmax, peak),
        ({
            let half = Real { bits: 0x3fe0_0000_0000_0000 };
            let ten = Real { bits: 0x4024_0000_0000_0000 };
            let power = Real { bits: 0x3ff8_0000_0000_0000 };
            let distance = m.minus(far, peak).absolute();
            let weight = m.power(m.over(m.minus(distance, half), ten), power);
            &&& distance.at_most(half) ==> threat(
                m,
                value,
                far,
                median,
                vmax,
                peak,
            ).place() == 0
            &&& half.less(distance) && m.minus(distance, half).place() > 0 ==> threat(
                m,
                value,
                far,
                median,
                vmax,
                peak,
            ) == m.times(m.fourth(rivalry(m, value, median, vmax)), weight)
        }),
{
    let half = Real { bits: NEARNESS_OFFSET };
    let ten = Real { bits: NEARNESS_SCALAR };
    let power = Real { bits: NEARNESS_POWER };
    let a = m.minus(near, peak).absolute();
    let b = m.minus(far, peak).absolute();
    let x = m.minus(a, half);
    let y = m.minus(b, half);
    assert(!x.nan() && !y.nan() && x.at_most(y));
    let u = x.raised(number::zero());
    let v = y.raised(number::zero());
    assert(u.at_most(v) && u.place() >= 0);
    assert(!m.over(u, ten).nan() && !m.over(v, ten).nan());
    assert(m.over(u, ten).at_most(m.over(v, ten)));
    assert(m.over(number::zero(), ten).place() == 0);
    assert(m.over(number::zero(), ten).at_most(m.over(u, ten)));
    assert(m.power(m.over(u, ten), power).at_most(m.power(m.over(v, ten), power)));
    if b.at_most(half) {
        assert(m.minus(half, half).place() == 0);
        assert(y.at_most(m.minus(half, half)));
        assert(v.place() == 0);
        assert(m.over(v, ten).place() == 0);
        assert(m.power(m.over(v, ten), power).place() == 0);
    }
}

/// Where every value of a curve weighs at least as much against the peak, the confidence is
/// no higher: rivals that stand farther off, or are higher, lower it.
pub proof fn rivals_lower_the_confidence(m: Meaning, less: Seq<Real>, more: Seq<Real>)
    requires
        m.keeps_order(),
        m.gives_numbers(),
        0 < less.len() == more.len(),
        m.whole(less.len() as int).place() > 0,
        m.whole(less.len() as int).finite(),
        forall|i: int|
            #![trigger less[i]]
            #![trigger more[i]]
            0 <= i < less.len() ==> less[i].at_most(more[i]) && more[i].finite() && less[i].finite(),
        forall|k: int|
            #![trigger less.take(k)]
            #![trigger more.take(k)]
            0 <= k <= less.len() ==> sum_of(m, less.take(k)).place() >= 0 && sum_of(
                m,
                more.take(k),
            ).finite(),
    ensures
        mean_of(m, less).at_most(mean_of(m, more)),
        mean_of(m, less).place() >= 0 ==> confidence_of(m, mean_of(m, more)).at_most(
            confidence_of(m, mean_of(m, less)),
        ),
{
    lemma_sums_grow(m, less, more, less.len() as int);
    assert(less.take(less.len() as int) =~= less);
    assert(more.take(more.len() as int) =~= more);
    let n = m.whole(less.len() as int);
    assert(!m.over(sum_of(m, less), n).nan() && !m.over(sum_of(m, more), n).nan());
    if mean_of(m, less).place() >= 0 {
        more_influence_is_less_sure(m, mean_of(m, less), mean_of(m, more));
    }
}

proof fn lemma_sums_grow(m: Meaning, less: Seq<Real>, more: Seq<Real>, k: int)
    requires
        m.keeps_order(),
        m.gives_numbers(),
        less.len() == more.len(),
        0 <= k <= less.len(),
        forall|i: int|
            #![trigger less[i]]
            #![trigger more[i]]
            0 <= i < less.len() ==> less[i].at_most(more[i]) && more[i].finite() && less[i].finite(),
    ensures
        sum_of(m, less.take(k)).at_most(sum_of(m, more.take(k))),
    decreases k,
{
    if k > 0 {
        lemma_sums_grow(m, less, more, k - 1);
        assert(less.take(k).drop_last() =~= less.take(k - 1));
        assert(more.take(k).drop_last() =~= more.take(k - 1));
        let a = sum_of(m, less.take(k - 1));
        let b = sum_of(m, more.take(k - 1));
        let x = less[k - 1];
        let y = more[k - 1];
        assert(!m.plus(a, x).nan() && !m.plus(b, x).nan() && !m.plus(b, y).nan());
        assert(m.plus(a, x).at_most(m.plus(b, x)));
        assert(m.plus(b, x).at_most(m.plus(b, y)));
    }
}

/// The more the rivals weigh, the less sure the estimate, from full confidence where they
/// weigh nothing down to none where they weigh as much as one or more. Between, it is what
/// the fifth root of the weight lacks of one, as a share of 0.83.
pub proof fn more_influence_is_less_sure(m: Meaning, less: Real, more: Real)
    requires
        m.gives_numbers(),
        m.keeps_order(),
        less.place() >= 0,
        less.at_most(more),
    ensures
        confidence_of(m, more).at_most(confidence_of(m, less)),
        ({
            let one = number::unity();
            let fifth = Real { bits: 0x3fc9_9999_9999_999a };
            let full = Real { bits: 0x3fea_8f5c_28f5_c28f };
            let share = m.over(m.minus(one, m.power(less, fifth)), full);
            &&& share.at_most(number::zero()) ==> confidence_of(m, less).place() == 0
            &&& one.at_most(share) ==> confidence_of(m, less) == one
            &&& number::zero().less(share) && share.less(one) ==> confidence_of(m, less) == share
        }),
        m.knows_zero_and_one() && less.place() == 0 && number::unity().at_most(
            m.over(number::unity(), Real { bits: 0x3fea_8f5c_28f5_c28f }),
        ) ==> confidence_of(m, less) == number::unity(),
{
    let fifth = Real { bits: INFLUENCE_POWER };
    let full = Real { bits: THEORETICAL_UPPER };
    let a = m.power(less, fifth);
    let b = m.power(more, fifth);
    assert(a.at_most(b));
    assert(!m.minus(one(), a).nan() && !m.minus(one(), b).nan());
    assert(m.minus(one(), b).at_most(m.minus(one(), a)));
    assert(!m.over(m.minus(one(), a), full).nan());
    assert(!m.over(m.minus(one(), b), full).nan());
    assert(m.over(m.minus(one(), b), full).at_most(m.over(m.minus(one(), a), full)));
}

fn confidence<C: Fn(Term) -> Real, L: Fn(u32, usize) -> Place>(
    num: &Numerics<C, L>,
    influence: Real,
) -> (out: Real)
    requires
        num.ready(),
    ensures
        forall|m: Meaning| #[trigger] num.follows(m) ==> out == confidence_of(m, influence),
{
    let one: Real = Real { bits: ONE };
    num.over(
        num.minus(one, num.power(influence, Real { bits: INFLUENCE_POWER })),
        Real { bits: THEORETICAL_UPPER },
    ).no_more_than(one).at_least(Real { bits: 0 })
}

fn threats<C: Fn(Term) -> Real, L: Fn(u32, usize) -> Place>(
    num: &Numerics<C, L>,
    values: &Vec<Real>,
    times: &Vec<Real>,
    median: Real,
    vmax: Real,
    peak: Real,
) -> (out: Vec<Real>)
    requires
        num.ready(),
        values.len() == times.len(),
    ensures
        out.len() == values.len(),
        forall|m: Meaning| #[trigger]
            num.follows(m) ==> out@ == threats_of(m, values@, times@, median, vmax, peak),
{
    let mut out: Vec<Real> = Vec::new();
    let mut i: usize = 0;
    while i < values.len()
        invariant
            i <= values.len(),
            values.len() == times.len(),
            num.ready(),
            out.len() == i,
            forall|m: Meaning, k: int|
                #![trigger num.follows(m), out@[k]]
                num.follows(m) && 0 <= k < i ==> out@[k] == threat(
                    m,
                    values@[k],
                    times@[k],
                    median,
                    vmax,
                    peak,
                ),
        decreases values.len() - i,
    {
        let rival: Real = rivaling_strength(num, values[i], median, vmax);
        let far: Real = num.minus(
            num.minus(times[i], peak).without_sign(),
            Real { bits: NEARNESS_OFFSET },
        ).at_least(Real { bits: 0 });
        let close: Real = num.over(far, Real { bits: NEARNESS_SCALAR });
        let strength: Real = num.value(Term::Fourth(rival));
        out.push(num.times(strength, num.power(close, Real { bits: NEARNESS_POWER })));
        i += 1;
    }
    assert forall|m: Meaning| #[trigger] num.follows(m) implies out@ == threats_of(
        m,
        values@,
        times@,
        median,
        vmax,
        peak,
    ) by {
        assert(out@ =~= threats_of(m, values@, times@, median, vmax, peak));
    }
    out
}

// ---------------------------------------------------------------------------
// The bias
// ---------------------------------------------------------------------------

/// When the columns of a fingerprint stand, in milliseconds from the beat.
pub open spec fn times_of(m: Meaning, cols: int, actual_step_sec: Real) -> Seq<Real> {
    Seq::new(
        cols as nat,
        |i: int|
            m.times(
                m.whole(i - cols / 2),
                m.times(actual_step_sec, Real { bits: THOUSAND }),
            ),
    )
}

/// The columns stand in even steps round the beat: the middle one at it, every other as
/// many steps from it as there are columns between, and later columns later.
pub proof fn columns_stand_in_even_steps(
    m: Meaning,
    cols: int,
    more_cols: int,
    actual_step_sec: Real,
    i: int,
    j: int,
)
    requires
        0 <= i < cols,
        0 <= j < more_cols,
    ensures
        times_of(m, cols, actual_step_sec).len() == cols,
        i - cols / 2 == j - more_cols / 2 ==> times_of(m, cols, actual_step_sec)[i] == times_of(
            m,
            more_cols,
            actual_step_sec,
        )[j],
        times_of(m, cols, actual_step_sec)[i] == m.times(
            m.whole(i - cols / 2),
            m.times(actual_step_sec, Real { bits: 0x408f_4000_0000_0000 }),
        ),
        m.knows_zero_and_one() && m.whole(0).place() == 0 && m.times(
            actual_step_sec,
            Real { bits: 0x408f_4000_0000_0000 },
        ).finite() && i == cols / 2 ==> times_of(m, cols, actual_step_sec)[i].place() == 0,
        m.keeps_order() && m.times(
            actual_step_sec,
            Real { bits: 0x408f_4000_0000_0000 },
        ).place() >= 0 && cols == more_cols && m.whole(i - cols / 2).at_most(
            m.whole(j - cols / 2),
        ) && !times_of(m, cols, actual_step_sec)[i].nan() && !times_of(
            m,
            cols,
            actual_step_sec,
        )[j].nan() ==> times_of(m, cols, actual_step_sec)[i].at_most(
            times_of(m, cols, actual_step_sec)[j],
        ),
{
}

pub fn fingerprint_times_ms<C: Fn(Term) -> Real, L: Fn(u32, usize) -> Place>(
    num: &Numerics<C, L>,
    cols: usize,
    actual_step_sec: Real,
) -> (out: Vec<Real>)
    requires
        num.ready(),
        cols <= isize::MAX,
    ensures
        out.len() == cols,
        forall|m: Meaning| #[trigger]
            num.follows(m) ==> out@ == times_of(m, cols as int, actual_step_sec),
{
    let offsets: Vec<isize> = fingerprint_offsets(cols);
    let step_ms: Real = num.times(actual_step_sec, Real { bits: THOUSAND });
    let mut out: Vec<Real> = Vec::new();
    let mut i: usize = 0;
    while i < cols
        invariant
            i <= cols == offsets.len(),
            num.ready(),
            out.len() == i,
            forall|k: int| 0 <= k < cols ==> #[trigger] offsets@[k] == k - cols / 2,
            forall|m: Meaning, k: int|
                #![trigger num.follows(m), out@[k]]
                num.follows(m) && 0 <= k < i ==> out@[k] == m.times(
                    m.whole(k - cols / 2),
                    step_ms,
                ),
        decreases cols - i,
    {
        let steps: Real = num.value(Term::Whole(offsets[i] as i128));
        out.push(num.times(steps, step_ms));
        i += 1;
    }
    assert forall|m: Meaning| #[trigger] num.follows(m) implies out@ == times_of(
        m,
        cols as int,
        actual_step_sec,
    ) by {
        assert(out@ =~= times_of(m, cols as int, actual_step_sec));
    }
    out
}

/// What is read from a convolution, and what a trace says of it.
pub struct ConvStats {
    pub estimate: BiasEstimate,
    pub convolution: BiasTraceConv,
    pub result: BiasTraceResult,
}

/// What lies between the discarded edges.
pub open spec fn core_of(values: Seq<Real>) -> Seq<Real> {
    values.subrange(2, values.len() - 2)
}

/// Whether `i` is where the bias is read: the peak of the curve, moved if the curve
/// is flat.
pub open spec fn read_at(m: Meaning, clip: Seq<Real>, conv_quint: Real, i: int) -> bool {
    exists|first: int|
        {
            &&& #[trigger] peaks::is_peak(clip, first)
            &&& peaks::stabilized(
                clip,
                first,
                conv_quint,
                m.times(clip[first], m.minus(one(), Real { bits: PEAK_STABILIZE_REL_EPS })),
                i,
            )
        }
}

/// Whether a result is what is read from a convolution.
pub open spec fn result_is(
    m: Meaning,
    flat: Seq<Real>,
    actual_step_sec: Real,
    magic_offset_ms: Real,
    r: BiasTraceResult,
) -> bool {
    let clip = core_of(flat);
    let values = normalized(m, clip);
    let times = times_of(m, flat.len() as int, actual_step_sec);
    let i = r.i_max as int;
    &&& i < clip.len()
    &&& percentile_is(m, values, 20, r.v20)
    &&& percentile_is(m, values, 80, r.v80)
    &&& percentile_is(m, values, 50, r.v_median)
    &&& r.conv_quint == m.minus(r.v80, r.v20)
    &&& read_at(m, clip, r.conv_quint, i)
    &&& r.bias_ms == m.plus(times[i + 2], magic_offset_ms)
    &&& r.conv_stdev == deviation_of(m, values)
    &&& r.v_max == values[i]
    &&& r.total_max_influence == mean_of(
        m,
        threats_of(m, values, core_of(times), r.v_median, r.v_max, times[i + 2]),
    )
    &&& r.confidence == confidence_of(m, r.total_max_influence)
}

impl ConvStats {
    /// Whether this is what is read from a convolution.
    pub open spec fn reads(
        self,
        m: Meaning,
        flat: Seq<Real>,
        actual_step_sec: Real,
        magic_offset_ms: Real,
    ) -> bool {
        let clip = core_of(flat);
        let r = self.result;
        &&& result_is(m, flat, actual_step_sec, magic_offset_ms, r)
        &&& self.estimate == (BiasEstimate {
            bias_ms: r.bias_ms,
            confidence: r.confidence,
            conv_quint: r.conv_quint,
            conv_stdev: r.conv_stdev,
        })
        &&& trace::convolution_told(
            clip,
            times_of(m, flat.len() as int, actual_step_sec),
            mean_of(m, clip),
            deviation_of(m, clip),
            self.convolution,
        )
    }
}

/// The values from `from` up to but without `to`.
pub(crate) fn part_of(values: &Vec<Real>, from: usize, to: usize) -> (out: Vec<Real>)
    requires
        from <= to <= values.len(),
    ensures
        out@ == values@.subrange(from as int, to as int),
{
    let mut out: Vec<Real> = Vec::new();
    let mut i: usize = from;
    while i < to
        invariant
            from <= i <= to <= values.len(),
            out@ == values@.subrange(from as int, i as int),
        decreases to - i,
    {
        out.push(values[i]);
        assert(values@.subrange(from as int, i + 1) =~= values@.subrange(
            from as int,
            i as int,
        ).push(values@[i as int]));
        i += 1;
    }
    out
}

/// Whether this comes of reading the bias from a convolution, which takes more than what
/// is discarded at its edges.
pub open spec fn read_from<C: Fn(Term) -> Real, L: Fn(u32, usize) -> Place>(
    num: Numerics<C, L>,
    flat: Seq<Real>,
    actual_step_sec: Real,
    magic_offset_ms: Real,
    out: Result<ConvStats, String>,
) -> bool {
    match out {
        Ok(stats) => flat.len() > 4 && forall|m: Meaning| #[trigger]
            num.follows(m) ==> stats.reads(m, flat, actual_step_sec, magic_offset_ms),
        Err(e) => flat.len() <= 4 && e@ == "convolution output too small for edge discard"@,
    }
}

/// Reads the bias from a convolution.
pub fn estimate_from_convolution<C: Fn(Term) -> Real, L: Fn(u32, usize) -> Place>(
    num: &Numerics<C, L>,
    post_kernel_flat: &Vec<Real>,
    actual_step_sec: Real,
    magic_offset_ms: Real,
) -> (out: Result<ConvStats, String>)
    requires
        num.ready(),
        post_kernel_flat.len() <= isize::MAX,
    ensures
        read_from(*num, post_kernel_flat@, actual_step_sec, magic_offset_ms, out),
{
    let len: usize = post_kernel_flat.len();
    let (from, to): (usize, usize) = match clip_range(len) {
        Ok(range) => range,
        Err(e) => {
            return Err(e);
        },
    };
    let clip: Vec<Real> = part_of(post_kernel_flat, from, to);
    let values: Vec<Real> = normalize_0_1(num, &clip);
    let v20: Real = percentile(num, &values, 20);
    let v80: Real = percentile(num, &values, 80);
    let conv_quint: Real = num.minus(v80, v20);
    let first: usize = argmax(&clip);
    let floor: Real = num.times(
        clip[first],
        num.minus(Real { bits: ONE }, Real { bits: PEAK_STABILIZE_REL_EPS }),
    );
    let i_max: usize = stabilized_peak_index(&clip, first, conv_quint, floor);
    let times: Vec<Real> = fingerprint_times_ms(num, len, actual_step_sec);
    let bias_ms: Real = num.plus(times[i_max + EDGE_DISCARD], magic_offset_ms);
    let core: Vec<Real> = part_of(&times, from, to);
    let v_std: Real = stdev_population(num, &values);
    let v_median: Real = percentile(num, &values, 50);
    let v_max: Real = values[i_max];
    let against: Vec<Real> = threats(num, &values, &core, v_median, v_max, core[i_max]);
    let total_max_influence: Real = mean(num, &against);
    let sure: Real = confidence(num, total_max_influence);
    let result: BiasTraceResult = BiasTraceResult {
        bias_ms,
        confidence: sure,
        conv_quint,
        conv_stdev: v_std,
        i_max,
        v_median,
        v_max,
        v20,
        v80,
        total_max_influence,
    };
    let clip_mean: Real = mean(num, &clip);
    let clip_std: Real = stdev_population(num, &clip);
    let convolution: BiasTraceConv = trace_convolution(&clip, &times, clip_mean, clip_std);
    let stats: ConvStats = ConvStats {
        estimate: BiasEstimate { bias_ms, confidence: sure, conv_quint, conv_stdev: v_std },
        convolution,
        result,
    };
    assert forall|m: Meaning| #[trigger] num.follows(m) implies stats.reads(
        m,
        post_kernel_flat@,
        actual_step_sec,
        magic_offset_ms,
    ) by {
        assert(clip@ == core_of(post_kernel_flat@));
        assert(core@ == core_of(times@));
        assert(peaks::is_peak(clip@, first as int));
        assert(read_at(m, clip@, conv_quint, i_max as int));
    }
    Ok(stats)
}

/// The bias is read at the time of the highest value between the edges, and the offset is
/// added: no value there is higher, but where the curve is flat the place may move back by
/// up to four columns, on to a value that lacks no more than the five-hundredth part of the
/// highest.
pub proof fn the_bias_is_read_at_the_peak(
    m: Meaning,
    flat: Seq<Real>,
    actual_step_sec: Real,
    magic_offset_ms: Real,
    stats: ConvStats,
) -> (first: int)
    requires
        4 < flat.len() <= usize::MAX,
        stats.reads(m, flat, actual_step_sec, magic_offset_ms),
        forall|j: int| 0 <= j < flat.len() ==> (#[trigger] flat[j]).finite(),
    ensures
        2 <= first < flat.len() - 2,
        forall|j: int| 2 <= j < flat.len() - 2 ==> (#[trigger] flat[j]).at_most(flat[first]),
        forall|j: int| 2 <= j < first ==> (#[trigger] flat[j]).less(flat[first]),
        ({
            let at = stats.result.i_max + 2;
            let floor = m.times(
                flat[first],
                m.minus(number::unity(), Real { bits: 0x3f60_624d_d2f1_a9fc }),
            );
            let spread = (Real { bits: 0x3fae_b851_eb85_1eb8 }).less(stats.estimate.conv_quint);
            &&& first <= at <= first + 4
            &&& at < flat.len() - 2
            &&& spread ==> at == first
            &&& at == first || floor.at_most(flat[at])
            &&& !spread ==> forall|j: int|
                first < j <= first + 4 && j < flat.len() - 2 && floor.at_most(#[trigger] flat[j])
                    ==> j <= at
            &&& stats.estimate.bias_ms == m.plus(
                m.times(
                    m.whole(at - flat.len() / 2),
                    m.times(actual_step_sec, Real { bits: 0x408f_4000_0000_0000 }),
                ),
                magic_offset_ms,
            )
            &&& stats.estimate.bias_ms == stats.result.bias_ms
            &&& stats.estimate.confidence == stats.result.confidence
        }),
{
    let clip = core_of(flat);
    let r = stats.result;
    let i = choose|i: int| #[trigger]
        peaks::is_peak(clip, i) && peaks::stabilized(
            clip,
            i,
            r.conv_quint,
            m.times(clip[i], m.minus(one(), Real { bits: PEAK_STABILIZE_REL_EPS })),
            r.i_max as int,
        );
    assert forall|j: int| 0 <= j < clip.len() implies (#[trigger] clip[j]).finite() by {
        assert(flat[j + 2].finite());
    }
    peaks::peaks_are_highest(clip, i);
    peaks::flat_peaks_move_back(
        clip,
        i,
        r.conv_quint,
        m.times(clip[i], m.minus(one(), Real { bits: PEAK_STABILIZE_REL_EPS })),
        r.i_max as int,
    );
    assert forall|j: int| 2 <= j < flat.len() - 2 implies (#[trigger] flat[j]).at_most(
        flat[i + 2],
    ) by {
        assert(clip[j - 2] == flat[j]);
    }
    assert forall|j: int| 2 <= j < i + 2 implies (#[trigger] flat[j]).less(flat[i + 2]) by {
        assert(clip[j - 2] == flat[j]);
    }
    assert forall|j: int|
        i + 2 < j <= i + 6 && j < flat.len() - 2 && m.times(
            clip[i],
            m.minus(one(), Real { bits: PEAK_STABILIZE_REL_EPS }),
        ).at_most(#[trigger] flat[j]) && !(Real { bits: 0x3fae_b851_eb85_1eb8 }).less(r.conv_quint)
        implies j <= r.i_max + 2 by {
        assert(clip[j - 2] == flat[j]);
    }
    i + 2
}

/// The confidence comes of what every value between the edges weighs against the peak: of
/// each as high as it is, and at its own distance, and of no other.
pub proof fn every_rival_is_weighed(
    m: Meaning,
    flat: Seq<Real>,
    actual_step_sec: Real,
    magic_offset_ms: Real,
    stats: ConvStats,
    weights: Seq<Real>,
)
    requires
        4 < flat.len() <= usize::MAX,
        stats.reads(m, flat, actual_step_sec, magic_offset_ms),
        weights.len() == flat.len() - 4,
        forall|i: int|
            0 <= i < weights.len() ==> #[trigger] weights[i] == threat(
                m,
                normalized(m, flat.subrange(2, flat.len() - 2))[i],
                times_of(m, flat.len() as int, actual_step_sec)[i + 2],
                stats.result.v_median,
                normalized(m, flat.subrange(2, flat.len() - 2))[stats.result.i_max as int],
                times_of(m, flat.len() as int, actual_step_sec)[stats.result.i_max + 2],
            ),
    ensures
        stats.estimate.confidence == confidence_of(
            m,
            m.over(sum_of(m, weights), m.whole(flat.len() - 4)),
        ),
        percentile_is(
            m,
            normalized(m, flat.subrange(2, flat.len() - 2)),
            50,
            stats.result.v_median,
        ),
{
    let values = normalized(m, core_of(flat));
    let times = times_of(m, flat.len() as int, actual_step_sec);
    assert(weights =~= threats_of(
        m,
        values,
        core_of(times),
        stats.result.v_median,
        stats.result.v_max,
        times[stats.result.i_max + 2],
    ));
}

/// A percentile is determined by the values.
pub proof fn percentiles_are_determined(
    m: Meaning,
    values: Seq<Real>,
    p: u32,
    a: Real,
    b: Real,
)
    requires
        percentile_is(m, values, p, a),
        percentile_is(m, values, p, b),
        values.len() <= usize::MAX,
    ensures
        a == b,
{
    let s = choose|sorted: Seq<Real>| #[trigger]
        peaks::in_order(values, sorted) && a == at_percent(m, sorted, p);
    let t = choose|sorted: Seq<Real>| #[trigger]
        peaks::in_order(values, sorted) && b == at_percent(m, sorted, p);
    peaks::order_is_determined(values, s, t);
}

/// What is read from a convolution is determined by it.
pub proof fn readings_are_determined(
    m: Meaning,
    flat: Seq<Real>,
    actual_step_sec: Real,
    magic_offset_ms: Real,
    a: BiasTraceResult,
    b: BiasTraceResult,
)
    requires
        4 < flat.len() <= usize::MAX,
        result_is(m, flat, actual_step_sec, magic_offset_ms, a),
        result_is(m, flat, actual_step_sec, magic_offset_ms, b),
    ensures
        a == b,
{
    let clip = core_of(flat);
    let values = normalized(m, clip);
    percentiles_are_determined(m, values, 20, a.v20, b.v20);
    percentiles_are_determined(m, values, 80, a.v80, b.v80);
    percentiles_are_determined(m, values, 50, a.v_median, b.v_median);
    let floor_of = |i: int|
        m.times(clip[i], m.minus(one(), Real { bits: PEAK_STABILIZE_REL_EPS }));
    let i = choose|first: int| #[trigger]
        peaks::is_peak(clip, first) && peaks::stabilized(
            clip,
            first,
            a.conv_quint,
            floor_of(first),
            a.i_max as int,
        );
    let j = choose|first: int| #[trigger]
        peaks::is_peak(clip, first) && peaks::stabilized(
            clip,
            first,
            b.conv_quint,
            floor_of(first),
            b.i_max as int,
        );
    peaks::peak_is_determined(clip, i, j);
    peaks::shift_is_determined(
        clip,
        i,
        a.conv_quint,
        floor_of(i),
        a.i_max as int,
        b.i_max as int,
    );
}

/// Whether two readings are the same but for the bias.
pub open spec fn same_but_for_the_bias(base: ConvStats, moved: ConvStats) -> bool {
    let bias_ms = moved.estimate.bias_ms;
    &&& moved.estimate == (BiasEstimate { bias_ms, ..base.estimate })
    &&& moved.result == (BiasTraceResult { bias_ms, ..base.result })
    &&& moved.convolution.edge_discard == base.convolution.edge_discard
    &&& moved.convolution.clip_min == base.convolution.clip_min
    &&& moved.convolution.clip_max == base.convolution.clip_max
    &&& moved.convolution.clip_mean == base.convolution.clip_mean
    &&& moved.convolution.clip_std == base.convolution.clip_std
    &&& moved.convolution.top_peaks@ == base.convolution.top_peaks@
}

/// The offset is added to the bias, and changes nothing else: neither whether there is a
/// reading, nor how sure it is, nor what a trace says of it. Nothing is read from four
/// values or less. The sum is that of numbers where these are added as such; it is the same
/// to the bit where zero leaves the time of the peak.
pub proof fn offsets_are_added_to_the_bias<C: Fn(Term) -> Real, L: Fn(u32, usize) -> Place>(
    num: Numerics<C, L>,
    m: Meaning,
    flat: Seq<Real>,
    actual_step_sec: Real,
    magic_offset_ms: Real,
    base: Result<ConvStats, String>,
    moved: Result<ConvStats, String>,
)
    requires
        num.follows(m),
        flat.len() <= usize::MAX,
        read_from(num, flat, actual_step_sec, number::zero(), base),
        read_from(num, flat, actual_step_sec, magic_offset_ms, moved),
    ensures
        if flat.len() <= 4 {
            &&& base is Err && base->Err_0@ == "convolution output too small for edge discard"@
            &&& moved is Err && moved->Err_0@ == base->Err_0@
        } else {
            &&& base is Ok && moved is Ok
            &&& same_but_for_the_bias(base->Ok_0, moved->Ok_0)
            &&& {
                let peak = times_of(
                    m,
                    flat.len() as int,
                    actual_step_sec,
                )[base->Ok_0.result.i_max + 2];
                let sum = m.plus(base->Ok_0.estimate.bias_ms, magic_offset_ms);
                &&& m.adds_as_numbers() ==> moved->Ok_0.estimate.bias_ms.alike(sum)
                &&& m.plus(peak, number::zero()) == peak ==> moved->Ok_0.estimate.bias_ms == sum
            }
        },
{
    if flat.len() > 4 {
        let b = base->Ok_0;
        let v = moved->Ok_0;
        let times = times_of(m, flat.len() as int, actual_step_sec);
        let peak = times[v.result.i_max + 2];
        let back = BiasTraceResult { bias_ms: m.plus(peak, number::zero()), ..v.result };
        assert(b.reads(m, flat, actual_step_sec, number::zero()));
        assert(v.reads(m, flat, actual_step_sec, magic_offset_ms));
        assert(result_is(m, flat, actual_step_sec, number::zero(), back));
        readings_are_determined(m, flat, actual_step_sec, number::zero(), b.result, back);
        trace::tellings_are_determined(
            core_of(flat),
            times,
            mean_of(m, core_of(flat)),
            deviation_of(m, core_of(flat)),
            v.convolution,
            b.convolution,
        );
        if m.adds_as_numbers() {
            assert(m.plus(peak, number::zero()).alike(peak));
            assert(m.plus(peak, magic_offset_ms).alike(
                m.plus(m.plus(peak, number::zero()), magic_offset_ms),
            ));
        }
    }
}

} // verus!
