//! The peaks of a curve.

use crate::number;
use crate::number::{Real, INFINITE, SIGN};
use crate::sorting;
use crate::sorting::{sort_places, Ascending, Descending};
use vstd::prelude::*;

verus! {

/// The columns at each end of a convolution that are not looked at.
pub const EDGE_DISCARD: usize = 2;

/// The part of a convolution that is looked at.
pub fn clip_range(len: usize) -> (out: Result<(usize, usize), String>)
    ensures
        match out {
            Ok(range) => len > 4 && range.0 == 2 && range.1 == len - 2,
            Err(e) => len <= 4 && e@ == "convolution output too small for edge discard"@,
        },
{
    if len <= EDGE_DISCARD * 2 {
        Err("convolution output too small for edge discard".to_owned())
    } else {
        Ok((EDGE_DISCARD, len - EDGE_DISCARD))
    }
}

/// Whether `i` is where a curve is highest: the first of the places that no
/// number exceeds, and the first place of all where no number exceeds the
/// negative infinity.
pub open spec fn is_peak(values: Seq<Real>, i: int) -> bool {
    if exists|j: int| 0 <= j < values.len() && number::below_all().less(#[trigger] values[j]) {
        &&& 0 <= i < values.len()
        &&& number::below_all().less(values[i])
        &&& forall|j: int| 0 <= j < values.len() ==> !values[i].less(#[trigger] values[j])
        &&& forall|j: int|
            0 <= j < i ==> #[trigger] values[j].less(values[i]) || values[j].nan()
    } else {
        i == 0
    }
}

pub fn argmax(values: &Vec<Real>) -> (idx: usize)
    ensures
        is_peak(values@, idx as int),
        values.len() > 0 ==> idx < values.len(),
{
    let mut idx: usize = 0;
    let mut best: Real = Real { bits: INFINITE + SIGN };
    let mut i: usize = 0;
    while i < values.len()
        invariant
            i <= values.len(),
            idx == 0 || idx < i,
            !best.nan(),
            best == number::below_all() ==> idx == 0 && forall|j: int|
                0 <= j < i ==> !number::below_all().less(#[trigger] values@[j]),
            best != number::below_all() ==> {
                &&& idx < i
                &&& best == values@[idx as int]
                &&& number::below_all().less(best)
            },
            forall|j: int| 0 <= j < i ==> !best.less(#[trigger] values@[j]),
            forall|j: int|
                0 <= j < idx ==> #[trigger] values@[j].less(best) || values@[j].nan(),
        decreases values.len() - i,
    {
        let v: Real = values[i];
        if best.is_less(v) {
            best = v;
            idx = i;
        }
        i += 1;
    }
    idx
}

/// The bit pattern of 0.06: a curve that spreads further is left as it is.
pub const PEAK_STABILIZE_QUINT_MAX: u64 = 0x3fae_b851_eb85_1eb8;

/// How far a peak moves, at most.
pub const PEAK_STABILIZE_MAX_SHIFT: usize = 4;

/// Where a peak moves to: the last place, no more than four behind it, at which
/// a flat curve still reaches `floor`.
pub open spec fn stabilized(
    values: Seq<Real>,
    i_max: int,
    conv_quint: Real,
    floor: Real,
    pick: int,
) -> bool {
    if (Real { bits: PEAK_STABILIZE_QUINT_MAX }).less(conv_quint) || !values[i_max].finite() {
        pick == i_max
    } else {
        &&& i_max <= pick <= i_max + 4
        &&& pick < values.len()
        &&& pick > i_max ==> floor.at_most(values[pick])
        &&& forall|j: int|
            pick < j <= i_max + 4 && j < values.len() ==> !floor.at_most(#[trigger] values[j])
    }
}

pub fn stabilized_peak_index(
    values: &Vec<Real>,
    i_max: usize,
    conv_quint: Real,
    floor: Real,
) -> (pick: usize)
    requires
        i_max < values.len(),
    ensures
        stabilized(values@, i_max as int, conv_quint, floor, pick as int),
        pick < values.len(),
{
    if (Real { bits: PEAK_STABILIZE_QUINT_MAX }).is_less(conv_quint) {
        return i_max;
    }
    if !values[i_max].is_finite() {
        return i_max;
    }
    let mut pick: usize = i_max;
    let mut j: usize = i_max + 1;
    while j < values.len() && j - i_max <= PEAK_STABILIZE_MAX_SHIFT
        invariant
            i_max <= pick < j <= values.len(),
            j <= i_max + 5,
            pick > i_max ==> floor.at_most(values@[pick as int]),
            forall|k: int| pick < k < j ==> !floor.at_most(#[trigger] values@[k]),
        decreases values.len() - j,
    {
        if floor.is_at_most(values[j]) {
            pick = j;
        }
        j += 1;
    }
    pick
}

/// How many peaks a trace lists, at most.
pub const TOP_PEAKS: usize = 12;

/// Whether the value at `i` comes before the value at `j` when the highest
/// comes first: by the total order of numbers, then by place.
pub open spec fn higher(values: Seq<Real>, i: int, j: int) -> bool {
    values[i].rank() > values[j].rank() || (values[i].rank() == values[j].rank() && i < j)
}

fn ranks(values: &Vec<Real>) -> (keys: Vec<i64>)
    ensures
        keys.len() == values.len(),
        forall|i: int| 0 <= i < keys.len() ==> #[trigger] keys@[i] == values@[i].rank(),
{
    let mut keys: Vec<i64> = Vec::new();
    let mut i: usize = 0;
    while i < values.len()
        invariant
            i <= values.len(),
            keys.len() == i,
            forall|k: int| 0 <= k < i ==> #[trigger] keys@[k] == values@[k].rank(),
        decreases values.len() - i,
    {
        keys.push(values[i].rank_of());
        i += 1;
    }
    keys
}

/// The places of the highest values, the highest first.
pub fn top_peaks(values: &Vec<Real>) -> (out: Vec<usize>)
    ensures
        out.len() == (if values.len() < 12 {
            values.len()
        } else {
            12
        }),
        forall|a: int| 0 <= a < out.len() ==> #[trigger] out@[a] < values.len(),
        forall|a: int, b: int|
            0 <= a < b < out.len() ==> higher(
                values@,
                #[trigger] out@[a] as int,
                #[trigger] out@[b] as int,
            ),
        forall|i: usize, a: int|
            #![trigger out@.contains(i), out@[a]]
            i < values.len() && !out@.contains(i) && 0 <= a < out.len() ==> higher(
                values@,
                out@[a] as int,
                i as int,
            ),
{
    let list: Descending = Descending { keys: ranks(values) };
    let mut places: Vec<usize> = sort_places(&list);
    let ghost all = places@;
    if places.len() > TOP_PEAKS {
        places.truncate(TOP_PEAKS);
    }
    proof {
        assert forall|a: int, b: int| 0 <= a < b < all.len() implies higher(
            values@,
            #[trigger] all[a] as int,
            #[trigger] all[b] as int,
        ) by {
            assert(sorting::precedes(&list, all[a] as int, all[b] as int));
        }
        assert forall|i: usize, a: int|
            #![trigger places@.contains(i), places@[a]]
            i < values.len() && !places@.contains(i) && 0 <= a < places.len() implies higher(
            values@,
            places@[a] as int,
            i as int,
        ) by {
            assert(all.contains(i));
            let k = choose|k: int| 0 <= k < all.len() && all[k] == i;
            if k < places.len() {
                assert(places@[k] == i);
            }
            assert(places@[a] == all[a]);
            assert(higher(values@, all[a] as int, all[k] as int));
        }
    }
    places
}

/// Whether the value at `i` comes before the value at `j` when the lowest comes
/// first: by the total order of numbers, then by place.
pub open spec fn lower(values: Seq<Real>, i: int, j: int) -> bool {
    values[i].rank() < values[j].rank() || (values[i].rank() == values[j].rank() && i < j)
}

/// Whether `places` holds the places of the values, the lowest first.
pub open spec fn ascends(values: Seq<Real>, places: Seq<usize>) -> bool {
    &&& sorting::arranges(places, 0, values.len() as int)
    &&& forall|a: int, b: int|
        0 <= a < b < places.len() ==> lower(
            values,
            #[trigger] places[a] as int,
            #[trigger] places[b] as int,
        )
}

/// Whether `sorted` holds the values from the lowest to the highest, in the total
/// order of numbers.
pub open spec fn in_order(values: Seq<Real>, sorted: Seq<Real>) -> bool {
    exists|places: Seq<usize>| #[trigger]
        ascends(values, places) && sorted == Seq::new(
            places.len(),
            |k: int| values[places[k] as int],
        )
}

pub fn sorted_values(values: &Vec<Real>) -> (out: Vec<Real>)
    ensures
        in_order(values@, out@),
        out.len() == values.len(),
{
    let list: Ascending = Ascending { keys: ranks(values) };
    let places: Vec<usize> = sort_places(&list);
    let mut out: Vec<Real> = Vec::new();
    let mut i: usize = 0;
    while i < places.len()
        invariant
            i <= places.len(),
            sorting::arranges(places@, 0, values.len() as int),
            out.len() == i,
            forall|k: int| 0 <= k < i ==> #[trigger] out@[k] == values@[places@[k] as int],
        decreases places.len() - i,
    {
        out.push(values[places[i]]);
        i += 1;
    }
    proof {
        assert forall|a: int, b: int| 0 <= a < b < places.len() implies lower(
            values@,
            #[trigger] places@[a] as int,
            #[trigger] places@[b] as int,
        ) by {
            assert(sorting::precedes(&list, places@[a] as int, places@[b] as int));
        }
        assert(ascends(values@, places@));
        assert(out@ =~= Seq::new(places@.len(), |k: int| values@[places@[k] as int]));
    }
    out
}

proof fn lemma_next_place(values: Seq<Real>, a: Seq<usize>, b: Seq<usize>, k: int)
    requires
        ascends(values, a),
        ascends(values, b),
        0 <= k < values.len() <= usize::MAX,
        a.take(k) == b.take(k),
    ensures
        a[k] == b[k] || lower(values, a[k] as int, b[k] as int),
{
    assert(a.contains(b[k]));
    let i = choose|i: int| 0 <= i < a.len() && a[i] == b[k];
    if i < k {
        assert(a.take(k)[i] == a[i]);
        assert(b.take(k)[i] == b[i]);
        assert(lower(values, b[i] as int, b[k] as int));
    }
    if i > k {
        assert(lower(values, a[k] as int, a[i] as int));
    }
}

proof fn lemma_same_places(values: Seq<Real>, a: Seq<usize>, b: Seq<usize>, n: int)
    requires
        ascends(values, a),
        ascends(values, b),
        0 <= n <= values.len() <= usize::MAX,
    ensures
        a.take(n) == b.take(n),
    decreases n,
{
    if n > 0 {
        let k = n - 1;
        lemma_same_places(values, a, b, k);
        lemma_next_place(values, a, b, k);
        lemma_next_place(values, b, a, k);
        assert(a.take(n) =~= a.take(k).push(a[k]));
        assert(b.take(n) =~= b.take(k).push(b[k]));
    } else {
        assert(a.take(n) =~= b.take(n));
    }
}

/// There is one way to put values in order.
pub proof fn order_is_determined(values: Seq<Real>, a: Seq<Real>, b: Seq<Real>)
    requires
        in_order(values, a),
        in_order(values, b),
        values.len() <= usize::MAX,
    ensures
        a == b,
        a.len() == values.len(),
{
    let p = choose|places: Seq<usize>| #[trigger]
        ascends(values, places) && a == Seq::new(
            places.len(),
            |k: int| values[places[k] as int],
        );
    let q = choose|places: Seq<usize>| #[trigger]
        ascends(values, places) && b == Seq::new(
            places.len(),
            |k: int| values[places[k] as int],
        );
    lemma_same_places(values, p, q, values.len() as int);
    assert(p.take(values.len() as int) =~= p);
    assert(q.take(values.len() as int) =~= q);
}

/// A curve has one peak.
pub proof fn peak_is_determined(values: Seq<Real>, a: int, b: int)
    requires
        is_peak(values, a),
        is_peak(values, b),
    ensures
        a == b,
{
    if exists|j: int| 0 <= j < values.len() && number::below_all().less(#[trigger] values[j]) {
        assert(!values[a].less(values[b]) && !values[b].less(values[a]));
        if a < b {
            assert(values[a].less(values[b]) || values[a].nan());
        }
        if b < a {
            assert(values[b].less(values[a]) || values[b].nan());
        }
    }
}

/// A peak moves to one place.
pub proof fn shift_is_determined(
    values: Seq<Real>,
    i_max: int,
    conv_quint: Real,
    floor: Real,
    a: int,
    b: int,
)
    requires
        stabilized(values, i_max, conv_quint, floor, a),
        stabilized(values, i_max, conv_quint, floor, b),
    ensures
        a == b,
{
    if a < b {
        assert(!floor.at_most(values[b]) || b == i_max);
    }
    if b < a {
        assert(!floor.at_most(values[a]) || a == i_max);
    }
}

/// The lowest number among the values, or the positive infinity. Of the two zeros
/// the first counts.
pub open spec fn lowest_of(values: Seq<Real>) -> Real
    decreases values.len(),
{
    if values.len() == 0 {
        number::above_all()
    } else {
        let before = lowest_of(values.drop_last());
        if values.last().less(before) {
            values.last()
        } else {
            before
        }
    }
}

/// The highest number among the values, or the negative infinity. Of the two zeros
/// the first counts.
pub open spec fn highest_of(values: Seq<Real>) -> Real
    decreases values.len(),
{
    if values.len() == 0 {
        number::below_all()
    } else {
        let before = highest_of(values.drop_last());
        if before.less(values.last()) {
            values.last()
        } else {
            before
        }
    }
}

/// No number among the values is lower than the lowest, none is higher than the highest,
/// and each is one of the values, or an infinity where there are no numbers to choose from.
pub proof fn extremes_are_values(values: Seq<Real>)
    ensures
        forall|i: int| 0 <= i < values.len() ==> !(#[trigger] values[i]).less(lowest_of(values)),
        forall|i: int| 0 <= i < values.len() ==> !highest_of(values).less(#[trigger] values[i]),
        !lowest_of(values).nan(),
        !highest_of(values).nan(),
        lowest_of(values) == number::above_all() || values.contains(lowest_of(values)),
        highest_of(values) == number::below_all() || values.contains(highest_of(values)),
    decreases values.len(),
{
    if values.len() > 0 {
        let before = values.drop_last();
        extremes_are_values(before);
        assert forall|i: int| 0 <= i < values.len() implies !(#[trigger] values[i]).less(
            lowest_of(values),
        ) && !highest_of(values).less(values[i]) by {
            if i < before.len() {
                assert(before[i] == values[i]);
                assert(!before[i].less(lowest_of(before)));
                assert(!highest_of(before).less(before[i]));
            }
        }
        assert(values[values.len() - 1] == values.last());
        if before.contains(lowest_of(before)) {
            let k = choose|k: int| 0 <= k < before.len() && before[k] == lowest_of(before);
            assert(values[k] == before[k]);
        }
        if before.contains(highest_of(before)) {
            let k = choose|k: int| 0 <= k < before.len() && before[k] == highest_of(before);
            assert(values[k] == before[k]);
        }
    }
}

/// Values in order are the same values, each as often, and none stands before a lower one.
pub proof fn values_in_order_are_rearranged(values: Seq<Real>, sorted: Seq<Real>)
    requires
        in_order(values, sorted),
        values.len() <= usize::MAX,
    ensures
        sorted.len() == values.len(),
        forall|i: int, j: int|
            0 <= i <= j < sorted.len() ==> (#[trigger] sorted[i]).rank() <= (
            #[trigger] sorted[j]).rank(),
        forall|i: int, j: int|
            0 <= i <= j < sorted.len() ==> !(#[trigger] sorted[j]).less(#[trigger] sorted[i]),
        forall|i: int| 0 <= i < sorted.len() ==> values.contains(#[trigger] sorted[i]),
        forall|i: int| 0 <= i < values.len() ==> sorted.contains(#[trigger] values[i]),
{
    order_is_determined(values, sorted, sorted);
    let places = choose|places: Seq<usize>| #[trigger]
        ascends(values, places) && sorted == Seq::new(
            places.len(),
            |k: int| values[places[k] as int],
        );
    assert forall|i: int, j: int| 0 <= i <= j < sorted.len() implies (#[trigger] sorted[i]).rank()
        <= (#[trigger] sorted[j]).rank() by {
        if i < j {
            assert(lower(values, places[i] as int, places[j] as int));
        }
    }
    assert forall|i: int| 0 <= i < sorted.len() implies values.contains(#[trigger] sorted[i]) by {
        assert(values[places[i] as int] == sorted[i]);
    }
    assert forall|i: int| 0 <= i < values.len() implies sorted.contains(#[trigger] values[i]) by {
        assert(places.contains(i as usize));
        let k = choose|k: int| 0 <= k < places.len() && places[k] == i as usize;
        assert(sorted[k] == values[i]);
    }
}

/// The peak of a curve of numbers is the first of its highest values.
pub proof fn peaks_are_highest(values: Seq<Real>, i: int)
    requires
        is_peak(values, i),
        values.len() > 0,
        forall|j: int| 0 <= j < values.len() ==> (#[trigger] values[j]).finite(),
    ensures
        0 <= i < values.len(),
        forall|j: int| 0 <= j < values.len() ==> (#[trigger] values[j]).at_most(values[i]),
        forall|j: int| 0 <= j < i ==> (#[trigger] values[j]).less(values[i]),
{
    assert(number::below_all().less(values[0])) by {
        assert(number::below_all().place() == -(INFINITE as int));
        assert(!number::below_all().nan());
    }
}

/// A peak moves only where the curve is flat, which is to spread over no more than 0.06,
/// and then to the last of the four places behind it that still reaches the floor; it stays
/// where none of them does.
pub proof fn flat_peaks_move_back(
    values: Seq<Real>,
    i_max: int,
    conv_quint: Real,
    floor: Real,
    pick: int,
)
    requires
        stabilized(values, i_max, conv_quint, floor, pick),
        0 <= i_max < values.len(),
        values[i_max].finite(),
    ensures
        i_max <= pick <= i_max + 4,
        pick < values.len(),
        (Real { bits: 0x3fae_b851_eb85_1eb8 }).less(conv_quint) ==> pick == i_max,
        !(Real { bits: 0x3fae_b851_eb85_1eb8 }).less(conv_quint) ==> {
            &&& pick == i_max || floor.at_most(values[pick])
            &&& forall|j: int|
                i_max < j <= i_max + 4 && j < values.len() && floor.at_most(#[trigger] values[j])
                    ==> j <= pick
        },
{
}

pub fn lowest(values: &Vec<Real>) -> (out: Real)
    ensures
        out == lowest_of(values@),
        !out.nan(),
        forall|i: int| 0 <= i < values.len() ==> !(#[trigger] values@[i]).less(out),
        out == number::above_all() || values@.contains(out),
{
    let mut out: Real = Real { bits: INFINITE };
    let mut i: usize = 0;
    while i < values.len()
        invariant
            i <= values.len(),
            out == lowest_of(values@.take(i as int)),
            !out.nan(),
            forall|k: int| 0 <= k < i ==> !(#[trigger] values@[k]).less(out),
            out == number::above_all() || values@.contains(out),
        decreases values.len() - i,
    {
        let v: Real = values[i];
        assert(values@.take(i + 1).drop_last() =~= values@.take(i as int));
        if v.is_less(out) {
            out = v;
            assert(values@[i as int] == v);
        }
        i += 1;
    }
    assert(values@.take(i as int) =~= values@);
    out
}

pub fn highest(values: &Vec<Real>) -> (out: Real)
    ensures
        out == highest_of(values@),
        !out.nan(),
        forall|i: int| 0 <= i < values.len() ==> !out.less(#[trigger] values@[i]),
        out == number::below_all() || values@.contains(out),
{
    let mut out: Real = Real { bits: INFINITE + SIGN };
    let mut i: usize = 0;
    while i < values.len()
        invariant
            i <= values.len(),
            out == highest_of(values@.take(i as int)),
            !out.nan(),
            forall|k: int| 0 <= k < i ==> !out.less(#[trigger] values@[k]),
            out == number::below_all() || values@.contains(out),
        decreases values.len() - i,
    {
        let v: Real = values[i];
        assert(values@.take(i + 1).drop_last() =~= values@.take(i as int));
        if out.is_less(v) {
            out = v;
            assert(values@[i as int] == v);
        }
        i += 1;
    }
    assert(values@.take(i as int) =~= values@);
    out
}

/// How many steps each column of a fingerprint stands from its middle.
pub fn fingerprint_offsets(cols: usize) -> (out: Vec<isize>)
    requires
        cols <= isize::MAX,
    ensures
        out.len() == cols,
        forall|i: int| 0 <= i < cols ==> #[trigger] out@[i] == i - cols / 2,
{
    let half: isize = (cols / 2) as isize;
    let mut out: Vec<isize> = Vec::new();
    let mut i: usize = 0;
    while i < cols
        invariant
            i <= cols <= isize::MAX,
            half == cols / 2,
            out.len() == i,
            forall|k: int| 0 <= k < i ==> #[trigger] out@[k] == k - cols / 2,
        decreases cols - i,
    {
        out.push(i as isize - half);
        i += 1;
    }
    out
}

/// A greater value comes before a smaller one, and of two that are alike the one that stands
/// first. Of any two places one comes before the other.
pub proof fn higher_values_come_first(values: Seq<Real>, i: int, j: int)
    ensures
        values[j].less(values[i]) ==> higher(values, i, j),
        values[i] == values[j] ==> (higher(values, i, j) <==> i < j),
        i != j ==> higher(values, i, j) != higher(values, j, i),
        !higher(values, i, i),
{
    number::rank_refines_less(values[j], values[i]);
    number::rank_refines_less(values[i], values[j]);
}

} // verus!
