//! The spectrum of some audio, column by column.

use crate::number;
use crate::number::{Real, HALF};
use crate::numeric::{Meaning, Numerics, Place, Term};
use vstd::prelude::*;

verus! {

/// The bit pattern of 1e-9, which is added to every power so that it has a logarithm.
pub const EPS: u64 = 0x3e11_2e0b_e826_d695;

/// The bit pattern of 3000: the frequency, in hertz, that weighs the most.
pub const FREQ_EMPHASIS: u64 = 0x40a7_7000_0000_0000;

/// The bit pattern of a full turn.
pub const TURN: u64 = 0x4019_21fb_5444_2d18;

/// The weight of a row: of its frequency.
pub open spec fn weight_of(m: Meaning, sample_rate_hz: u32, nperseg: usize, row: int) -> Real {
    let step = m.over(m.whole(sample_rate_hz as int), m.whole(nperseg as int));
    let f = m.times(m.whole(row), step);
    m.times(f, m.exponential(m.over(f.opposite(), Real { bits: FREQ_EMPHASIS })))
}

pub open spec fn weights_of(m: Meaning, sample_rate_hz: u32, nperseg: usize, rows: nat) -> Seq<
    Real,
> {
    Seq::new(rows, |row: int| weight_of(m, sample_rate_hz, nperseg, row))
}

/// The weights of the rows of a spectrogram.
pub fn frequency_weights<C: Fn(Term) -> Real, L: Fn(u32, usize) -> Place>(
    num: &Numerics<C, L>,
    sample_rate_hz: u32,
    nperseg: usize,
    rows: usize,
) -> (out: Vec<Real>)
    requires
        num.ready(),
    ensures
        out.len() == rows,
        forall|m: Meaning| #[trigger]
            num.follows(m) ==> out@ == weights_of(m, sample_rate_hz, nperseg, rows as nat),
{
    let step: Real = num.over(
        num.value(Term::Whole(sample_rate_hz as i128)),
        num.count(nperseg),
    );
    let mut out: Vec<Real> = Vec::new();
    let mut row: usize = 0;
    while row < rows
        invariant
            row <= rows,
            out.len() == row,
            num.ready(),
            forall|m: Meaning| #[trigger]
                num.follows(m) ==> step == m.over(
                    m.whole(sample_rate_hz as int),
                    m.whole(nperseg as int),
                ),
            forall|m: Meaning, i: int|
                #![trigger num.follows(m), out@[i]]
                num.follows(m) && 0 <= i < row ==> out@[i] == weight_of(
                    m,
                    sample_rate_hz,
                    nperseg,
                    i,
                ),
        decreases rows - row,
    {
        let f: Real = num.times(num.count(row), step);
        let fall: Real = num.over(f.negated(), Real { bits: FREQ_EMPHASIS });
        out.push(num.times(f, num.value(Term::Exponential(fall))));
        row += 1;
    }
    assert forall|m: Meaning| #[trigger] num.follows(m) implies out@ == weights_of(
        m,
        sample_rate_hz,
        nperseg,
        rows as nat,
    ) by {
        assert(out@ =~= weights_of(m, sample_rate_hz, nperseg, rows as nat));
    }
    out
}

/// A place of a window that rises from zero and falls back to it, once in `n` places.
pub open spec fn hann_at(m: Meaning, n: int, i: int) -> Real {
    let angle = m.over(m.times(Real { bits: TURN }, m.whole(i)), m.whole(n));
    m.minus(Real { bits: HALF }, m.times(Real { bits: HALF }, m.cosine(angle)))
}

pub open spec fn hann_of(m: Meaning, n: nat) -> Seq<Real> {
    Seq::new(n, |i: int| hann_at(m, n as int, i))
}

/// The window that the samples of a column are weighed with.
pub fn hann_periodic<C: Fn(Term) -> Real, L: Fn(u32, usize) -> Place>(
    num: &Numerics<C, L>,
    n: usize,
) -> (out: Vec<Real>)
    requires
        num.ready(),
    ensures
        out.len() == n,
        forall|m: Meaning| #[trigger] num.follows(m) ==> out@ == hann_of(m, n as nat),
{
    let mut out: Vec<Real> = Vec::new();
    let mut i: usize = 0;
    while i < n
        invariant
            i <= n,
            out.len() == i,
            num.ready(),
            forall|m: Meaning, k: int|
                #![trigger num.follows(m), out@[k]]
                num.follows(m) && 0 <= k < i ==> out@[k] == hann_at(m, n as int, k),
        decreases n - i,
    {
        let angle: Real = num.over(num.times(Real { bits: TURN }, num.count(i)), num.count(n));
        let part: Real = num.times(Real { bits: HALF }, num.value(Term::Cosine(angle)));
        out.push(num.minus(Real { bits: HALF }, part));
        i += 1;
    }
    assert forall|m: Meaning| #[trigger] num.follows(m) implies out@ == hann_of(m, n as nat) by {
        assert(out@ =~= hann_of(m, n as nat));
    }
    out
}

/// What a transform tells of a frequency, as a complex number.
#[derive(Debug, Clone, Copy, PartialEq, Eq, Structural)]
pub struct Bin {
    pub re: Real,
    pub im: Real,
}

/// The samples from `base` on, each weighed.
pub open spec fn weighed(m: Meaning, audio: Seq<Real>, window: Seq<Real>, base: int) -> Seq<Real> {
    Seq::new(window.len(), |i: int| m.times(audio[base + i], window[i]))
}

/// The logarithm of the power of a frequency.
pub open spec fn log_power(m: Meaning, bin: Bin) -> Real {
    let power = m.fused(bin.re, bin.re, m.times(bin.im, bin.im));
    m.logarithm(m.plus(power, Real { bits: EPS }))
}

/// Whether `t` says what a transform makes of its input.
pub open spec fn transforms_as<T: Fn(Vec<Real>) -> Vec<Bin>>(
    transform: T,
    t: spec_fn(Seq<Real>) -> Seq<Bin>,
) -> bool {
    forall|input: Vec<Real>, bins: Vec<Bin>| #[trigger]
        call_ensures(transform, (input,), bins) ==> bins@ == t(input@)
}

/// Whether a transform takes `n` numbers and tells of `rows` frequencies at least.
pub open spec fn gives_bins<T: Fn(Vec<Real>) -> Vec<Bin>>(
    transform: T,
    n: usize,
    rows: usize,
) -> bool {
    &&& forall|input: Vec<Real>|
        input.len() == n ==> #[trigger] call_requires(transform, (input,))
    &&& forall|input: Vec<Real>, bins: Vec<Bin>| #[trigger]
        call_ensures(transform, (input,), bins) && input.len() == n ==> bins.len() >= rows
}

/// The column of a spectrogram that starts at a sample.
pub open spec fn column_of(
    m: Meaning,
    t: spec_fn(Seq<Real>) -> Seq<Bin>,
    audio: Seq<Real>,
    window: Seq<Real>,
    rows: nat,
    base: int,
) -> Seq<Real> {
    let bins = t(weighed(m, audio, window, base));
    Seq::new(rows, |row: int| log_power(m, bins[row]))
}

fn weigh<C: Fn(Term) -> Real, L: Fn(u32, usize) -> Place>(
    num: &Numerics<C, L>,
    audio: &Vec<Real>,
    window: &Vec<Real>,
    base: usize,
) -> (out: Vec<Real>)
    requires
        num.ready(),
        base + window.len() <= audio.len(),
    ensures
        out.len() == window.len(),
        forall|m: Meaning| #[trigger]
            num.follows(m) ==> out@ == weighed(m, audio@, window@, base as int),
{
    let mut out: Vec<Real> = Vec::new();
    let mut i: usize = 0;
    while i < window.len()
        invariant
            i <= window.len(),
            base + window.len() <= audio.len(),
            out.len() == i,
            num.ready(),
            forall|m: Meaning, k: int|
                #![trigger num.follows(m), out@[k]]
                num.follows(m) && 0 <= k < i ==> out@[k] == m.times(audio@[base + k], window@[k]),
        decreases window.len() - i,
    {
        out.push(num.times(audio[base + i], window[i]));
        i += 1;
    }
    assert forall|m: Meaning| #[trigger] num.follows(m) implies out@ == weighed(
        m,
        audio@,
        window@,
        base as int,
    ) by {
        assert(out@ =~= weighed(m, audio@, window@, base as int));
    }
    out
}

/// A column of a spectrogram: the powers of the frequencies in the samples from
/// `base` on, as logarithms. `transform` tells the frequencies of some numbers.
pub fn log_column<
    C: Fn(Term) -> Real,
    L: Fn(u32, usize) -> Place,
    T: Fn(Vec<Real>) -> Vec<Bin>,
>(
    num: &Numerics<C, L>,
    transform: &T,
    audio: &Vec<Real>,
    window: &Vec<Real>,
    rows: usize,
    base: usize,
) -> (out: Vec<Real>)
    requires
        num.ready(),
        base + window.len() <= audio.len(),
        gives_bins(*transform, window.len(), rows),
    ensures
        out.len() == rows,
        forall|m: Meaning, t: spec_fn(Seq<Real>) -> Seq<Bin>| #[trigger]
            num.follows(m) && #[trigger] transforms_as(*transform, t) ==> out@ == column_of(
                m,
                t,
                audio@,
                window@,
                rows as nat,
                base as int,
            ),
{
    let input: Vec<Real> = weigh(num, audio, window, base);
    let ghost weighted = input@;
    let bins: Vec<Bin> = transform(input);
    let mut out: Vec<Real> = Vec::new();
    let mut row: usize = 0;
    while row < rows
        invariant
            row <= rows <= bins.len(),
            out.len() == row,
            num.ready(),
            forall|m: Meaning, k: int|
                #![trigger num.follows(m), out@[k]]
                num.follows(m) && 0 <= k < row ==> out@[k] == log_power(m, bins@[k]),
        decreases rows - row,
    {
        let bin: Bin = bins[row];
        let power: Real = num.value(Term::Fused(bin.re, bin.re, num.times(bin.im, bin.im)));
        let level: Real = num.plus(power, Real { bits: EPS });
        out.push(num.value(Term::Logarithm(level)));
        row += 1;
    }
    assert forall|m: Meaning, t: spec_fn(Seq<Real>) -> Seq<Bin>| #[trigger]
        num.follows(m) && #[trigger] transforms_as(*transform, t) implies out@ == column_of(
        m,
        t,
        audio@,
        window@,
        rows as nat,
        base as int,
    ) by {
        assert(bins@ == t(weighted));
        assert(out@ =~= column_of(m, t, audio@, window@, rows as nat, base as int));
    }
    out
}

// ---------------------------------------------------------------------------
// What a spectrum is of
// ---------------------------------------------------------------------------

/// The weight of a row is that of its frequency, whatever rate and window it comes of: equal
/// frequencies weigh the same. It is the frequency itself, damped the more the higher it is
/// above three thousand hertz, so that the lowest row weighs nothing.
pub proof fn rows_weigh_as_their_frequencies(
    m: Meaning,
    rate: u32,
    nperseg: usize,
    row: int,
    other_rate: u32,
    other_nperseg: usize,
    other_row: int,
)
    ensures
        ({
            let f = m.times(
                m.whole(row),
                m.over(m.whole(rate as int), m.whole(nperseg as int)),
            );
            let g = m.times(
                m.whole(other_row),
                m.over(m.whole(other_rate as int), m.whole(other_nperseg as int)),
            );
            let damped = m.exponential(
                m.over(f.opposite(), Real { bits: 0x40a7_7000_0000_0000 }),
            );
            &&& f == g ==> weight_of(m, rate, nperseg, row) == weight_of(
                m,
                other_rate,
                other_nperseg,
                other_row,
            )
            &&& weight_of(m, rate, nperseg, row) == m.times(f, damped)
            &&& m.knows_zero_and_one() && f.place() == 0 && damped.finite() ==> weight_of(
                m,
                rate,
                nperseg,
                row,
            ).place() == 0
            &&& m.keeps_order() && damped.place() >= 0 && f.place() >= 0
                && m.knows_zero_and_one() && damped.finite() && !f.nan() && !weight_of(
                m,
                rate,
                nperseg,
                row,
            ).nan() ==> weight_of(m, rate, nperseg, row).place() >= 0
        }),
{
    let f = m.times(m.whole(row), m.over(m.whole(rate as int), m.whole(nperseg as int)));
    let damped = m.exponential(m.over(f.opposite(), Real { bits: FREQ_EMPHASIS }));
    if m.knows_zero_and_one() && damped.finite() {
        assert(m.times(number::zero(), damped).place() == 0);
        if m.keeps_order() && damped.place() >= 0 && f.place() >= 0 && !f.nan() {
            assert(number::zero().at_most(f));
            assert(!m.times(number::zero(), damped).nan());
        }
    }
}

/// The window rises from zero: it is half of what the cosine of the angle lacks of one, the
/// angle going once round in as many steps as there are places. It lies between zero and one
/// where the cosine lies between one and minus one.
pub proof fn windows_rise_from_zero(m: Meaning, n: int, i: int)
    ensures
        ({
            let turn = Real { bits: 0x4019_21fb_5444_2d18 };
            let half = Real { bits: 0x3fe0_0000_0000_0000 };
            let cosine = m.cosine(m.over(m.times(turn, m.whole(i)), m.whole(n)));
            let part = m.times(half, cosine);
            &&& hann_at(m, n, i) == m.minus(half, part)
            &&& m.knows_zero_and_one() && part == half ==> hann_at(m, n, i).place() == 0
            &&& m.keeps_order() && m.gives_numbers() && m.knows_zero_and_one() && part.at_most(
                half,
            ) ==> hann_at(m, n, i).place() >= 0
            &&& m.keeps_order() && m.gives_numbers() && part.at_most(half)
                && half.opposite().at_most(part) && m.minus(half, half.opposite())
                == number::unity() ==> hann_at(m, n, i).at_most(number::unity())
        }),
        hann_of(m, n as nat).len() == n as nat,
        0 <= i < n ==> hann_of(m, n as nat)[i] == hann_at(m, n, i),
{
    let half = Real { bits: HALF };
    let part = m.times(
        half,
        m.cosine(m.over(m.times(Real { bits: TURN }, m.whole(i)), m.whole(n))),
    );
    if m.knows_zero_and_one() {
        assert(m.minus(half, half).place() == 0);
    }
    if m.keeps_order() && m.gives_numbers() && part.at_most(half) {
        assert(!m.minus(half, part).nan() && !m.minus(half, half).nan());
        assert(m.minus(half, half).at_most(m.minus(half, part)));
        if half.opposite().at_most(part) {
            assert(!m.minus(half, half.opposite()).nan());
            assert(m.minus(half, part).at_most(m.minus(half, half.opposite())));
        }
    }
}

/// A column is of the samples under its window alone, each weighed by its place there: audio
/// that is the same there has the same column, wherever it stands.
pub proof fn columns_are_of_their_samples(
    m: Meaning,
    t: spec_fn(Seq<Real>) -> Seq<Bin>,
    audio: Seq<Real>,
    other: Seq<Real>,
    window: Seq<Real>,
    rows: nat,
    base: int,
    other_base: int,
    row: int,
)
    requires
        forall|i: int|
            0 <= i < window.len() ==> #[trigger] audio[base + i] == other[other_base + i],
        0 <= row < rows,
    ensures
        column_of(m, t, audio, window, rows, base) == column_of(
            m,
            t,
            other,
            window,
            rows,
            other_base,
        ),
        column_of(m, t, audio, window, rows, base).len() == rows,
        ({
            let weighed = Seq::new(
                window.len(),
                |i: int| m.times(audio[base + i], window[i]),
            );
            let bin = t(weighed)[row];
            let power = m.fused(bin.re, bin.re, m.times(bin.im, bin.im));
            column_of(m, t, audio, window, rows, base)[row] == m.logarithm(
                m.plus(power, Real { bits: 0x3e11_2e0b_e826_d695 }),
            )
        }),
{
    assert(weighed(m, audio, window, base) =~= weighed(m, other, window, other_base)) by {
        assert forall|i: int| 0 <= i < window.len() implies weighed(m, audio, window, base)[i]
            == weighed(m, other, window, other_base)[i] by {
            assert(audio[base + i] == other[other_base + i]);
        }
    }
    assert(weighed(m, audio, window, base) =~= Seq::new(
        window.len(),
        |i: int| m.times(audio[base + i], window[i]),
    ));
}

} // verus!
