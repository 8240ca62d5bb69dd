//! The fingerprint of a chart: the spectrum round its beats, added up.

use crate::beats::{BeatWindow, Setup};
use crate::matrix;
use vstd::prelude::*;

verus! {

/// What the cells of a matrix are added and multiplied with, and what a sum
/// starts with. No law of arithmetic is asked of it: the order in which cells are
/// added up is part of what is promised.
pub struct Arith<T, P, M> {
    pub zero: T,
    pub plus: P,
    pub times: M,
}

/// What an arithmetic computes.
#[verifier::reject_recursive_types(T)]
pub ghost struct Ops<T> {
    pub zero: T,
    pub sum: spec_fn(T, T) -> T,
    pub product: spec_fn(T, T) -> T,
}

impl<T: Copy, P: Fn(T, T) -> T, M: Fn(T, T) -> T> Arith<T, P, M> {
    /// Whether all cells can be added and multiplied.
    pub open spec fn ready(self) -> bool {
        &&& forall|a: T, b: T| #[trigger] call_requires(self.plus, (a, b))
        &&& forall|a: T, b: T| #[trigger] call_requires(self.times, (a, b))
    }

    /// Whether `ops` says what is computed.
    pub open spec fn follows(self, ops: Ops<T>) -> bool {
        &&& self.zero == ops.zero
        &&& forall|a: T, b: T, c: T| #[trigger]
            call_ensures(self.plus, (a, b), c) ==> c == (ops.sum)(a, b)
        &&& forall|a: T, b: T, c: T| #[trigger]
            call_ensures(self.times, (a, b), c) ==> c == (ops.product)(a, b)
    }
}

// ---------------------------------------------------------------------------
// Columns
// ---------------------------------------------------------------------------

/// How many columns so many samples give: one for each window of `nperseg`
/// samples that starts at a multiple of `nstep`.
pub open spec fn columns_in(samples: int, nperseg: int, nstep: int) -> int {
    1 + (samples - nperseg) / nstep
}

/// The number of columns, or nothing where there are too few samples for one.
pub fn full_columns(audio_len: usize, nperseg: usize, nstep: usize) -> (out: Option<usize>)
    requires
        nstep > 0,
        nperseg > 0,
    ensures
        match out {
            Some(n) => audio_len >= nperseg && n == columns_in(
                audio_len as int,
                nperseg as int,
                nstep as int,
            ),
            None => audio_len < nperseg,
        },
{
    if audio_len < nperseg {
        return None;
    }
    proof {
        vstd::arithmetic::div_mod::lemma_div_nonincreasing(audio_len - nperseg, nstep as int);
    }
    Some(1 + (audio_len - nperseg) / nstep)
}

/// Each column is made of samples of the audio.
pub proof fn columns_lie_in_the_audio(audio_len: int, nperseg: int, nstep: int, c: int)
    requires
        0 < nperseg <= audio_len,
        nstep > 0,
        0 <= c < columns_in(audio_len, nperseg, nstep),
    ensures
        0 <= c * nstep,
        c * nstep + nperseg <= audio_len,
{
    vstd::arithmetic::div_mod::lemma_fundamental_div_mod(audio_len - nperseg, nstep);
    vstd::arithmetic::div_mod::lemma_mod_bound(audio_len - nperseg, nstep);
    assert(0 <= c * nstep <= audio_len - nperseg) by (nonlinear_arith)
        requires
            audio_len - nperseg == nstep * ((audio_len - nperseg) / nstep) + (audio_len - nperseg)
                % nstep,
            0 <= (audio_len - nperseg) % nstep,
            0 <= c <= (audio_len - nperseg) / nstep,
            nstep > 0,
    ;
}

/// The samples that the window from column `t_s` to `t_f` takes in, cut off at
/// the end of the audio.
pub open spec fn window_samples(audio_len: usize, setup: Setup, t_s: usize, t_f: usize) -> (
    int,
    int,
) {
    let end = t_f * setup.nstep + setup.nperseg - 1;
    (
        t_s * setup.nstep,
        if end < audio_len {
            end
        } else {
            audio_len as int
        },
    )
}

/// Whether the samples of a window give just `cols` columns.
pub open spec fn snippet_fits(
    audio_len: usize,
    setup: Setup,
    t_s: usize,
    t_f: usize,
    cols: usize,
) -> bool {
    let (s, f) = window_samples(audio_len, setup, t_s, t_f);
    f > s + setup.nperseg && columns_in(f - s, setup.nperseg as int, setup.nstep as int) == cols
}

/// The samples of a window, if they give just `cols` columns.
pub fn snippet_span(audio_len: usize, setup: &Setup, t_s: usize, t_f: usize, cols: usize) -> (out:
    Option<(usize, usize)>)
    requires
        setup.nstep > 0,
        setup.nperseg > 0,
    ensures
        match out {
            Some(span) => {
                &&& snippet_fits(audio_len, *setup, t_s, t_f, cols)
                &&& (span.0 as int, span.1 as int) == window_samples(audio_len, *setup, t_s, t_f)
            },
            None => !snippet_fits(audio_len, *setup, t_s, t_f, cols),
        },
{
    proof {
        assert(0 <= t_s * setup.nstep <= 0xffff_ffff_ffff_ffff * 0xffff_ffff_ffff_ffff && 0 <= t_f
            * setup.nstep <= 0xffff_ffff_ffff_ffff * 0xffff_ffff_ffff_ffff) by (nonlinear_arith)
            requires
                0 <= t_s <= 0xffff_ffff_ffff_ffff,
                0 <= t_f <= 0xffff_ffff_ffff_ffff,
                0 <= setup.nstep <= 0xffff_ffff_ffff_ffff,
        ;
    }
    let s: u128 = t_s as u128 * setup.nstep as u128;
    let end: u128 = t_f as u128 * setup.nstep as u128 + (setup.nperseg - 1) as u128;
    let f: u128 = if end < audio_len as u128 {
        end
    } else {
        audio_len as u128
    };
    if f <= s + setup.nperseg as u128 {
        return None;
    }
    let sample_s: usize = s as usize;
    let sample_f: usize = f as usize;
    proof {
        vstd::arithmetic::div_mod::lemma_div_nonincreasing(
            sample_f - sample_s - setup.nperseg,
            setup.nstep as int,
        );
    }
    let local_cols: usize = 1 + (sample_f - sample_s - setup.nperseg) / setup.nstep;
    if local_cols == cols {
        Some((sample_s, sample_f))
    } else {
        None
    }
}

/// Whether the columns of a window can be taken from the columns of the whole
/// audio, as they would be taken from the samples of the window alone.
pub fn window_matches_legacy_rules(
    audio_len: usize,
    setup: &Setup,
    t_s: usize,
    t_f: usize,
    cols: usize,
    full_cols: usize,
) -> (yes: bool)
    requires
        setup.nstep > 0,
        setup.nperseg > 0,
    ensures
        yes == (snippet_fits(audio_len, *setup, t_s, t_f, cols) && t_s + cols <= full_cols),
{
    if snippet_span(audio_len, setup, t_s, t_f, cols).is_none() {
        return false;
    }
    match t_s.checked_add(cols) {
        Some(end) => end <= full_cols,
        None => false,
    }
}

/// A window whose samples give as many columns as it needs finds those columns
/// among the columns of the whole audio: the two ways of taking a fingerprint
/// use the same windows.
pub proof fn snippets_lie_in_the_full_spectrogram(
    audio_len: usize,
    setup: Setup,
    t_s: usize,
    t_f: usize,
    cols: usize,
)
    requires
        setup.nstep > 0,
        setup.nperseg > 0,
        snippet_fits(audio_len, setup, t_s, t_f, cols),
    ensures
        audio_len >= setup.nperseg,
        t_s + cols <= columns_in(audio_len as int, setup.nperseg as int, setup.nstep as int),
{
    let (s, f) = window_samples(audio_len, setup, t_s, t_f);
    let nstep = setup.nstep as int;
    let rest = f - s - setup.nperseg;
    assert(s >= 0) by (nonlinear_arith)
        requires
            s == t_s * setup.nstep,
            t_s >= 0,
            setup.nstep >= 0,
    ;
    assert(audio_len - setup.nperseg >= rest + t_s * nstep);
    vstd::arithmetic::div_mod::lemma_div_is_ordered(
        rest + t_s * nstep,
        audio_len - setup.nperseg,
        nstep,
    );
    vstd::arithmetic::div_mod::lemma_hoist_over_denominator(rest, t_s as int, nstep as nat);
}

/// The bytes of a spectrogram that is still taken as a whole, at most.
pub const FULL_SPEC_MAX_BYTES: usize = 268_435_456;

/// Whether the spectrogram of the whole audio is worth taking: it has no more
/// columns than the windows have together, and its cells, of eight bytes each,
/// take no more memory than is allowed.
pub open spec fn full_spectrogram_pays(audio_len: usize, setup: Setup, windows: usize) -> bool {
    let full_cols = columns_in(audio_len as int, setup.nperseg as int, setup.nstep as int);
    &&& audio_len >= setup.nperseg
    &&& full_cols <= windows * setup.fp_size
    &&& setup.n_freq_taps * full_cols * 8 <= FULL_SPEC_MAX_BYTES
}

pub fn should_use_full_spectrogram(audio_len: usize, setup: &Setup, windows: usize) -> (yes: bool)
    requires
        setup.nstep > 0,
        setup.nperseg > 0,
        setup.n_freq_taps > 0,
    ensures
        yes == full_spectrogram_pays(audio_len, *setup, windows),
{
    let full_cols: usize = match full_columns(audio_len, setup.nperseg, setup.nstep) {
        Some(n) => n,
        None => {
            return false;
        },
    };
    let legacy_cols: usize = match windows.checked_mul(setup.fp_size) {
        Some(n) => n,
        None => usize::MAX,
    };
    if full_cols > legacy_cols {
        return false;
    }
    proof {
        assert(0 <= setup.n_freq_taps * full_cols) by (nonlinear_arith)
            requires
                0 <= setup.n_freq_taps,
                0 <= full_cols,
        ;
    }
    let full_cells: usize = match setup.n_freq_taps.checked_mul(full_cols) {
        Some(n) => n,
        None => {
            return false;
        },
    };
    match full_cells.checked_mul(8) {
        Some(full_bytes) => full_bytes <= FULL_SPEC_MAX_BYTES,
        None => false,
    }
}

// ---------------------------------------------------------------------------
// Building
// ---------------------------------------------------------------------------

/// Whether `spectrum` says what `column` hands out for the samples from a
/// given one on.
pub open spec fn tells<T, F: Fn(usize) -> Vec<T>>(column: F, spectrum: spec_fn(int) -> Seq<T>) -> bool {
    forall|base: usize, v: Vec<T>|
        #[trigger] call_ensures(column, (base,), v) ==> v@ == spectrum(base as int)
}

/// Whether `column` can be asked for every column of the audio, and hands out
/// columns of `rows` cells.
pub open spec fn gives_columns<T, F: Fn(usize) -> Vec<T>>(
    column: F,
    audio_len: usize,
    nperseg: usize,
    rows: usize,
) -> bool {
    &&& forall|base: usize|
        base + nperseg <= audio_len ==> #[trigger] call_requires(column, (base,))
    &&& forall|base: usize, v: Vec<T>|
        #[trigger] call_ensures(column, (base,), v) ==> v.len() == rows
}

/// A list that holds one value throughout.
fn filled<T: Copy>(value: T, size: usize) -> (out: Vec<T>)
    ensures
        out.len() == size,
        forall|i: int| 0 <= i < size ==> out@[i] == value,
{
    let mut out: Vec<T> = Vec::new();
    let mut i: usize = 0;
    while i < size
        invariant
            i <= size,
            out.len() == i,
            forall|k: int| 0 <= k < i ==> out@[k] == value,
        decreases size - i,
    {
        out.push(value);
        i += 1;
    }
    out
}

/// Whether the matrix holds the columns from the sample `first` on.
pub open spec fn holds_columns<T>(
    matrix: Seq<T>,
    rows: int,
    cols: int,
    first: int,
    nstep: int,
    spectrum: spec_fn(int) -> Seq<T>,
) -> bool {
    forall|r: int, c: int|
        #![trigger matrix[r * cols + c]]
        0 <= r < rows && 0 <= c < cols ==> matrix[r * cols + c] == spectrum(first + c * nstep)[r]
}

/// The spectrogram of `cols` columns that start at the sample `first` and stand
/// `nstep` samples apart.
fn spectrogram<T: Copy, F: Fn(usize) -> Vec<T>>(
    audio_len: usize,
    nperseg: usize,
    rows: usize,
    cols: usize,
    first: usize,
    nstep: usize,
    blank: T,
    column: &F,
) -> (matrix: Vec<T>)
    requires
        gives_columns(*column, audio_len, nperseg, rows),
        rows * cols <= usize::MAX,
        forall|c: int| 0 <= c < cols ==> 0 <= #[trigger] (c * nstep) && first + c * nstep + nperseg <= audio_len,
    ensures
        matrix.len() == rows * cols,
        forall|spectrum: spec_fn(int) -> Seq<T>| #[trigger]
            tells(*column, spectrum) ==> holds_columns(
                matrix@,
                rows as int,
                cols as int,
                first as int,
                nstep as int,
                spectrum,
            ),
{
    let mut matrix: Vec<T> = filled(blank, rows * cols);
    let mut c: usize = 0;
    while c < cols
        invariant
            c <= cols,
            gives_columns(*column, audio_len, nperseg, rows),
            matrix.len() == rows * cols,
            rows * cols <= usize::MAX,
            forall|k: int| 0 <= k < cols ==> 0 <= #[trigger] (k * nstep) && first + k * nstep + nperseg <= audio_len,
            forall|spectrum: spec_fn(int) -> Seq<T>, r: int, k: int|
                #![trigger tells(*column, spectrum), matrix@[r * cols + k]]
                tells(*column, spectrum) && 0 <= r < rows && 0 <= k < c ==> matrix@[r * cols + k]
                    == spectrum(first + k * nstep)[r],
        decreases cols - c,
    {
        assert(0 <= c as int * nstep as int && first + c as int * nstep as int + nperseg <= audio_len);
        let base: usize = first + c * nstep;
        let values: Vec<T> = column(base);
        let mut r: usize = 0;
        while r < rows
            invariant
                r <= rows,
                c < cols,
                values.len() == rows,
                matrix.len() == rows * cols,
                rows * cols <= usize::MAX,
                base == first + c * nstep,
                call_ensures(*column, (base,), values),
                forall|spectrum: spec_fn(int) -> Seq<T>, i: int, k: int|
                    #![trigger tells(*column, spectrum), matrix@[i * cols + k]]
                    tells(*column, spectrum) && 0 <= i < rows && 0 <= k < c ==> matrix@[i * cols
                        + k] == spectrum(first + k * nstep)[i],
                forall|i: int|
                    #![trigger matrix@[i * cols + c]]
                    0 <= i < r ==> matrix@[i * cols + c] == values@[i],
            decreases rows - r,
        {
            proof {
                matrix::lemma_cell(rows as int, cols as int, r as int, c as int);
            }
            let ghost before = matrix@;
            matrix.set(r * cols + c, values[r]);
            proof {
                assert forall|spectrum: spec_fn(int) -> Seq<T>, i: int, k: int|
                    #![trigger tells(*column, spectrum), matrix@[i * cols + k]]
                    tells(*column, spectrum) && 0 <= i < rows && 0 <= k < c implies matrix@[i * cols
                    + k] == spectrum(first + k * nstep)[i] by {
                    if i * cols + k == r * cols + c {
                        matrix::lemma_cells_apart(cols as int, i, k, r as int, c as int);
                    }
                    matrix::lemma_cell(rows as int, cols as int, i, k);
                    assert(before[i * cols + k] == spectrum(first + k * nstep)[i]);
                }
                assert forall|i: int|
                    #![trigger matrix@[i * cols + c]]
                    0 <= i < r + 1 implies matrix@[i * cols + c] == values@[i] by {
                    if i < r {
                        if i * cols + c == r * cols + c {
                            matrix::lemma_cells_apart(cols as int, i, c as int, r as int, c as int);
                        }
                        matrix::lemma_cell(rows as int, cols as int, i, c as int);
                        assert(before[i * cols + c] == values@[i]);
                    }
                }
            }
            r += 1;
        }
        proof {
            assert forall|spectrum: spec_fn(int) -> Seq<T>, i: int, k: int|
                #![trigger tells(*column, spectrum), matrix@[i * cols + k]]
                tells(*column, spectrum) && 0 <= i < rows && 0 <= k < c + 1 implies matrix@[i * cols
                + k] == spectrum(first + k * nstep)[i] by {
                if k == c {
                    assert(matrix@[i * cols + c] == values@[i]);
                    assert(values@ == spectrum(base as int));
                }
            }
        }
        c += 1;
    }
    proof {
        assert forall|spectrum: spec_fn(int) -> Seq<T>| #[trigger]
            tells(*column, spectrum) implies holds_columns(
            matrix@,
            rows as int,
            cols as int,
            first as int,
            nstep as int,
            spectrum,
        ) by {}
    }
    matrix
}

/// What the cell of a window adds to the fingerprint: the spectrum, weighted by
/// its frequency.
pub open spec fn weighted_cell<T>(
    ops: Ops<T>,
    spectrum: spec_fn(int) -> Seq<T>,
    nstep: int,
    weights: Seq<T>,
    w: BeatWindow,
    r: int,
    c: int,
) -> T {
    (ops.product)(spectrum((w.t_s + c) * nstep)[r], weights[r])
}

/// The cell of the accumulated spectrum: what the windows add to it, in their order.
pub open spec fn acc_cell<T>(
    ops: Ops<T>,
    spectrum: spec_fn(int) -> Seq<T>,
    nstep: int,
    weights: Seq<T>,
    windows: Seq<BeatWindow>,
    r: int,
    c: int,
) -> T
    decreases windows.len(),
{
    if windows.len() == 0 {
        ops.zero
    } else {
        (ops.sum)(
            acc_cell(ops, spectrum, nstep, weights, windows.drop_last(), r, c),
            weighted_cell(ops, spectrum, nstep, weights, windows.last(), r, c),
        )
    }
}

/// The cell of the beat digest: what the first `rows` frequencies of the window
/// add up to, in their order.
pub open spec fn digest_cell<T>(
    ops: Ops<T>,
    spectrum: spec_fn(int) -> Seq<T>,
    nstep: int,
    weights: Seq<T>,
    w: BeatWindow,
    rows: nat,
    c: int,
) -> T
    decreases rows,
{
    if rows == 0 {
        ops.zero
    } else {
        (ops.sum)(
            digest_cell(ops, spectrum, nstep, weights, w, (rows - 1) as nat, c),
            weighted_cell(ops, spectrum, nstep, weights, w, rows - 1, c),
        )
    }
}

/// The windows whose samples give as many columns as a fingerprint has.
pub open spec fn windows_taken(
    audio_len: usize,
    setup: Setup,
    windows: Seq<BeatWindow>,
) -> Seq<BeatWindow>
    decreases windows.len(),
{
    if windows.len() == 0 {
        Seq::empty()
    } else {
        let before = windows_taken(audio_len, setup, windows.drop_last());
        let w = windows.last();
        if snippet_fits(audio_len, setup, w.t_s, w.t_f, setup.fp_size) {
            before.push(w)
        } else {
            before
        }
    }
}

/// The fingerprint of a chart: the accumulated spectrum, a row for each
/// frequency; the beat digest, a row for each window; and the windows.
pub struct Fingerprint<T> {
    pub acc: Vec<T>,
    pub digest: Vec<T>,
    pub taken: Vec<BeatWindow>,
}

impl<T> Fingerprint<T> {
    /// Whether this is the fingerprint of the windows in the spectrum.
    pub open spec fn sums_up(
        self,
        ops: Ops<T>,
        spectrum: spec_fn(int) -> Seq<T>,
        setup: Setup,
        weights: Seq<T>,
    ) -> bool {
        let rows = setup.n_freq_taps as int;
        let cols = setup.fp_size as int;
        let nstep = setup.nstep as int;
        &&& self.acc.len() == rows * cols
        &&& forall|r: int, c: int|
            #![trigger self.acc@[r * cols + c]]
            0 <= r < rows && 0 <= c < cols ==> self.acc@[r * cols + c] == acc_cell(
                ops,
                spectrum,
                nstep,
                weights,
                self.taken@,
                r,
                c,
            )
        &&& self.digest.len() == self.taken.len() * cols
        &&& forall|b: int, c: int|
            #![trigger self.digest@[b * cols + c]]
            0 <= b < self.taken.len() && 0 <= c < cols ==> self.digest@[b * cols + c]
                == digest_cell(ops, spectrum, nstep, weights, self.taken@[b], rows as nat, c)
    }
}

/// A fingerprint is determined by the arithmetic, the spectrum, the weights and
/// the windows.
pub proof fn fingerprints_are_determined<T>(
    a: Fingerprint<T>,
    b: Fingerprint<T>,
    ops: Ops<T>,
    spectrum: spec_fn(int) -> Seq<T>,
    setup: Setup,
    weights: Seq<T>,
)
    requires
        setup.fp_size > 0,
        a.sums_up(ops, spectrum, setup, weights),
        b.sums_up(ops, spectrum, setup, weights),
        a.taken@ == b.taken@,
    ensures
        a.acc@ == b.acc@,
        a.digest@ == b.digest@,
{
    let cols = setup.fp_size as int;
    assert forall|i: int| 0 <= i < a.acc.len() implies a.acc@[i] == b.acc@[i] by {
        lemma_place(i, setup.n_freq_taps as int, cols);
        assert(a.acc@[(i / cols) * cols + i % cols] == b.acc@[(i / cols) * cols + i % cols]);
    }
    assert(a.acc@ =~= b.acc@);
    assert forall|i: int| 0 <= i < a.digest.len() implies a.digest@[i] == b.digest@[i] by {
        lemma_place(i, a.taken.len() as int, cols);
        assert(a.digest@[(i / cols) * cols + i % cols] == b.digest@[(i / cols) * cols + i % cols]);
    }
    assert(a.digest@ =~= b.digest@);
}

proof fn lemma_place(i: int, rows: int, cols: int)
    requires
        0 <= i < rows * cols,
        cols > 0,
    ensures
        i == (i / cols) * cols + i % cols,
        0 <= i / cols < rows,
        0 <= i % cols < cols,
{
    vstd::arithmetic::div_mod::lemma_fundamental_div_mod(i, cols);
    vstd::arithmetic::div_mod::lemma_mod_bound(i, cols);
    vstd::arithmetic::div_mod::lemma_div_pos_is_pos(i, cols);
    vstd::arithmetic::mul::lemma_mul_is_commutative(cols, i / cols);
    vstd::arithmetic::mul::lemma_mul_is_commutative(rows, cols);
    vstd::arithmetic::div_mod::lemma_multiply_divide_lt(i, cols, rows);
}

/// What the first `rows` rows of a column of a matrix add up to, each weighted.
spec fn column_sum<T>(
    ops: Ops<T>,
    matrix: Seq<T>,
    width: int,
    weights: Seq<T>,
    rows: nat,
    c: int,
) -> T
    decreases rows,
{
    if rows == 0 {
        ops.zero
    } else {
        (ops.sum)(
            column_sum(ops, matrix, width, weights, (rows - 1) as nat, c),
            (ops.product)(matrix[(rows - 1) * width + c], weights[rows - 1]),
        )
    }
}

/// Whether the cells before the cell (`r`, `c`) have been added to `before`.
spec fn added<T>(
    ops: Ops<T>,
    before: Seq<T>,
    after: Seq<T>,
    matrix: Seq<T>,
    weights: Seq<T>,
    width: int,
    start: int,
    rows: int,
    cols: int,
    r: int,
    c: int,
) -> bool {
    forall|i: int, k: int|
        #![trigger after[i * cols + k]]
        0 <= i < rows && 0 <= k < cols ==> after[i * cols + k] == if i < r || (i == r && k < c) {
            (ops.sum)(
                before[i * cols + k],
                (ops.product)(matrix[i * width + (start + k)], weights[i]),
            )
        } else {
            before[i * cols + k]
        }
}

/// Whether a row holds the sums of its columns, of the first `r` rows and of one
/// more for the columns before `c`.
spec fn row_sums<T>(
    ops: Ops<T>,
    row: Seq<T>,
    matrix: Seq<T>,
    weights: Seq<T>,
    width: int,
    start: int,
    r: int,
    c: int,
) -> bool {
    forall|k: int|
        0 <= k < row.len() ==> #[trigger] row[k] == column_sum(
            ops,
            matrix,
            width,
            weights,
            (if k < c {
                r + 1
            } else {
                r
            }) as nat,
            start + k,
        )
}

/// Adds the columns of a window, which stand in the matrix from `start` on.
fn apply_window_weighting<T: Copy, P: Fn(T, T) -> T, M: Fn(T, T) -> T>(
    arith: &Arith<T, P, M>,
    fp: &mut Fingerprint<T>,
    matrix: &Vec<T>,
    width: usize,
    start: usize,
    rows: usize,
    cols: usize,
    weights: &Vec<T>,
    w: BeatWindow,
)
    requires
        arith.ready(),
        old(fp).acc.len() == rows * cols,
        matrix.len() == rows * width,
        start + cols <= width,
        weights.len() == rows,
    ensures
        final(fp).acc.len() == rows * cols,
        final(fp).digest.len() == old(fp).digest.len() + cols,
        final(fp).digest@.take(old(fp).digest.len() as int) == old(fp).digest@,
        final(fp).taken@ == old(fp).taken@.push(w),
        forall|ops: Ops<T>| #[trigger]
            arith.follows(ops) ==> added(
                ops,
                old(fp).acc@,
                final(fp).acc@,
                matrix@,
                weights@,
                width as int,
                start as int,
                rows as int,
                cols as int,
                rows as int,
                0,
            ) && row_sums(
                ops,
                final(fp).digest@.skip(old(fp).digest.len() as int),
                matrix@,
                weights@,
                width as int,
                start as int,
                rows as int,
                0,
            ),
{
    let ghost acc0 = fp.acc@;
    let ghost digest0 = fp.digest@;
    let ghost m = matrix@;
    let ghost ws = weights@;
    let mut row: Vec<T> = filled(arith.zero, cols);
    let mut r: usize = 0;
    while r < rows
        invariant
            r <= rows,
            arith.ready(),
            m == matrix@,
            ws == weights@,
            acc0.len() == rows * cols,
            fp.acc.len() == rows * cols,
            fp.digest@ == digest0,
            fp.taken@ == old(fp).taken@,
            matrix.len() == rows * width,
            start + cols <= width,
            weights.len() == rows,
            row.len() == cols,
            forall|ops: Ops<T>| #[trigger]
                arith.follows(ops) ==> added(
                    ops,
                    acc0,
                    fp.acc@,
                    m,
                    ws,
                    width as int,
                    start as int,
                    rows as int,
                    cols as int,
                    r as int,
                    0,
                ) && row_sums(ops, row@, m, ws, width as int, start as int, r as int, 0),
        decreases rows - r,
    {
        let weight: T = weights[r];
        let mut c: usize = 0;
        while c < cols
            invariant
                c <= cols,
                r < rows,
                arith.ready(),
                m == matrix@,
                ws == weights@,
                acc0.len() == rows * cols,
                fp.acc.len() == rows * cols,
                fp.digest@ == digest0,
                fp.taken@ == old(fp).taken@,
                matrix.len() == rows * width,
                start + cols <= width,
                weights.len() == rows,
                weight == ws[r as int],
                row.len() == cols,
                forall|ops: Ops<T>| #[trigger]
                    arith.follows(ops) ==> added(
                        ops,
                        acc0,
                        fp.acc@,
                        m,
                        ws,
                        width as int,
                        start as int,
                        rows as int,
                        cols as int,
                        r as int,
                        c as int,
                    ) && row_sums(ops, row@, m, ws, width as int, start as int, r as int, c as int),
            decreases cols - c,
        {
            proof {
                matrix::lemma_cell(rows as int, cols as int, r as int, c as int);
                matrix::lemma_cell(rows as int, width as int, r as int, start + c);
            }
            let cell: T = matrix[r * width + (start + c)];
            let v: T = (arith.times)(cell, weight);
            let ghost acc1 = fp.acc@;
            let ghost row1 = row@;
            let place: usize = r * cols + c;
            let had: T = fp.acc[place];
            let more: T = (arith.plus)(had, v);
            fp.acc.set(place, more);
            let had_row: T = row[c];
            let more_row: T = (arith.plus)(had_row, v);
            row.set(c, more_row);
            proof {
                assert forall|ops: Ops<T>| #[trigger] arith.follows(ops) implies added(
                    ops,
                    acc0,
                    fp.acc@,
                    m,
                    ws,
                    width as int,
                    start as int,
                    rows as int,
                    cols as int,
                    r as int,
                    c + 1,
                ) && row_sums(ops, row@, m, ws, width as int, start as int, r as int, c + 1) by {
                    assert(v == (ops.product)(m[r * width + (start + c)], ws[r as int]));
                    assert(more == (ops.sum)(had, v));
                    assert(more_row == (ops.sum)(had_row, v));
                    assert forall|i: int, k: int|
                        #![trigger fp.acc@[i * cols + k]]
                        0 <= i < rows && 0 <= k < cols implies fp.acc@[i * cols + k] == (if i < r
                        || (i == r && k < c + 1) {
                        (ops.sum)(
                            acc0[i * cols + k],
                            (ops.product)(m[i * width + (start + k)], ws[i]),
                        )
                    } else {
                        acc0[i * cols + k]
                    }) by {
                        matrix::lemma_cell(rows as int, cols as int, i, k);
                        if i * cols + k == r * cols + c {
                            matrix::lemma_cells_apart(cols as int, i, k, r as int, c as int);
                        }
                        assert(acc1[i * cols + k] == if i < r || (i == r && k < c) {
                            (ops.sum)(
                                acc0[i * cols + k],
                                (ops.product)(m[i * width + (start + k)], ws[i]),
                            )
                        } else {
                            acc0[i * cols + k]
                        });
                    }
                    assert forall|k: int| 0 <= k < row.len() implies #[trigger] row@[k]
                        == column_sum(
                        ops,
                        m,
                        width as int,
                        ws,
                        (if k < c + 1 {
                            r + 1
                        } else {
                            r as int
                        }) as nat,
                        start + k,
                    ) by {
                        assert(row1[k] == column_sum(
                            ops,
                            m,
                            width as int,
                            ws,
                            (if k < c {
                                r + 1
                            } else {
                                r as int
                            }) as nat,
                            start + k,
                        ));
                    }
                }
            }
            c += 1;
        }
        proof {
            assert forall|ops: Ops<T>| #[trigger] arith.follows(ops) implies added(
                ops,
                acc0,
                fp.acc@,
                m,
                ws,
                width as int,
                start as int,
                rows as int,
                cols as int,
                r + 1,
                0,
            ) && row_sums(ops, row@, m, ws, width as int, start as int, r + 1, 0) by {
                assert(added(
                    ops,
                    acc0,
                    fp.acc@,
                    m,
                    ws,
                    width as int,
                    start as int,
                    rows as int,
                    cols as int,
                    r as int,
                    c as int,
                ));
                assert(row_sums(
                    ops,
                    row@,
                    m,
                    ws,
                    width as int,
                    start as int,
                    r as int,
                    c as int,
                ));
            }
        }
        r += 1;
    }
    let ghost acc2 = fp.acc@;
    let mut c: usize = 0;
    assert(digest0 + row@.take(0) =~= digest0);
    while c < cols
        invariant
            c <= cols,
            fp.acc@ == acc2,
            fp.taken@ == old(fp).taken@,
            row.len() == cols,
            fp.digest@ == digest0 + row@.take(c as int),
        decreases cols - c,
    {
        fp.digest.push(row[c]);
        assert(fp.digest@ =~= digest0 + row@.take(c + 1));
        c += 1;
    }
    fp.taken.push(w);
    assert(fp.digest@.take(digest0.len() as int) =~= digest0);
    assert(fp.digest@.skip(digest0.len() as int) =~= row@);
}

/// Adding a window whose columns the matrix holds adds its part of the spectrum.
proof fn lemma_window_adds_up<T>(
    before: Fingerprint<T>,
    after: Fingerprint<T>,
    ops: Ops<T>,
    spectrum: spec_fn(int) -> Seq<T>,
    setup: Setup,
    weights: Seq<T>,
    matrix: Seq<T>,
    width: int,
    start: int,
    w: BeatWindow,
)
    requires
        setup.fp_size > 0,
        before.sums_up(ops, spectrum, setup, weights),
        after.acc.len() == setup.n_freq_taps * setup.fp_size,
        forall|r: int, c: int|
            0 <= r < setup.n_freq_taps && 0 <= c < setup.fp_size
                ==> #[trigger] matrix[r * width + (start + c)] == spectrum(
                (w.t_s + c) * setup.nstep,
            )[r],
        added(
            ops,
            before.acc@,
            after.acc@,
            matrix,
            weights,
            width,
            start,
            setup.n_freq_taps as int,
            setup.fp_size as int,
            setup.n_freq_taps as int,
            0,
        ),
        after.digest.len() == before.digest.len() + setup.fp_size,
        after.digest@.take(before.digest.len() as int) == before.digest@,
        row_sums(
            ops,
            after.digest@.skip(before.digest.len() as int),
            matrix,
            weights,
            width,
            start,
            setup.n_freq_taps as int,
            0,
        ),
        after.taken@ == before.taken@.push(w),
    ensures
        after.sums_up(ops, spectrum, setup, weights),
{
    let rows = setup.n_freq_taps as int;
    let cols = setup.fp_size as int;
    let nstep = setup.nstep as int;
    let n = before.taken.len() as int;
    let old_len = before.digest.len() as int;
    assert(after.taken@.drop_last() =~= before.taken@);
    assert forall|r: int, c: int|
        #![trigger after.acc@[r * cols + c]]
        0 <= r < rows && 0 <= c < cols implies after.acc@[r * cols + c] == acc_cell(
        ops,
        spectrum,
        nstep,
        weights,
        after.taken@,
        r,
        c,
    ) by {
        assert(before.acc@[r * cols + c] == acc_cell(
            ops,
            spectrum,
            nstep,
            weights,
            before.taken@,
            r,
            c,
        ));
        assert(matrix[r * width + (start + c)] == spectrum((w.t_s + c) * nstep)[r]);
    }
    assert((n + 1) * cols == n * cols + cols) by (nonlinear_arith);
    assert forall|b: int, c: int|
        #![trigger after.digest@[b * cols + c]]
        0 <= b < after.taken.len() && 0 <= c < cols implies after.digest@[b * cols + c]
        == digest_cell(ops, spectrum, nstep, weights, after.taken@[b], rows as nat, c) by {
        if b < n {
            matrix::lemma_cell(n, cols, b, c);
            assert(after.digest@.take(old_len)[b * cols + c] == after.digest@[b * cols + c]);
            assert(before.digest@[b * cols + c] == digest_cell(
                ops,
                spectrum,
                nstep,
                weights,
                before.taken@[b],
                rows as nat,
                c,
            ));
        } else {
            let row = after.digest@.skip(old_len);
            assert(row[c] == after.digest@[old_len + c]);
            assert(row[c] == column_sum(ops, matrix, width, weights, rows as nat, start + c));
            lemma_column_sum(
                ops,
                spectrum,
                nstep,
                weights,
                matrix,
                width,
                start,
                w,
                rows,
                rows as nat,
                c,
            );
        }
    }
}

proof fn lemma_column_sum<T>(
    ops: Ops<T>,
    spectrum: spec_fn(int) -> Seq<T>,
    nstep: int,
    weights: Seq<T>,
    matrix: Seq<T>,
    width: int,
    start: int,
    w: BeatWindow,
    rows: int,
    k: nat,
    c: int,
)
    requires
        k <= rows,
        forall|r: int|
            0 <= r < rows ==> #[trigger] matrix[r * width + (start + c)] == spectrum(
                (w.t_s + c) * nstep,
            )[r],
    ensures
        column_sum(ops, matrix, width, weights, k, start + c) == digest_cell(
            ops,
            spectrum,
            nstep,
            weights,
            w,
            k,
            c,
        ),
    decreases k,
{
    if k > 0 {
        lemma_column_sum(
            ops,
            spectrum,
            nstep,
            weights,
            matrix,
            width,
            start,
            w,
            rows,
            (k - 1) as nat,
            c,
        );
        assert(matrix[(k - 1) * width + (start + c)] == spectrum((w.t_s + c) * nstep)[k - 1]);
    }
}

/// A fingerprint of no window.
fn empty_fingerprint<T: Copy>(zero: T, rows: usize, cols: usize) -> (fp: Fingerprint<T>)
    requires
        rows * cols <= usize::MAX,
    ensures
        fp.acc.len() == rows * cols,
        forall|i: int| 0 <= i < fp.acc.len() ==> fp.acc@[i] == zero,
        fp.digest@.len() == 0,
        fp.taken@.len() == 0,
{
    Fingerprint { acc: filled(zero, rows * cols), digest: Vec::new(), taken: Vec::new() }
}

proof fn lemma_empty_sums_up<T>(
    fp: Fingerprint<T>,
    ops: Ops<T>,
    spectrum: spec_fn(int) -> Seq<T>,
    setup: Setup,
    weights: Seq<T>,
)
    requires
        fp.acc.len() == setup.n_freq_taps * setup.fp_size,
        forall|i: int| 0 <= i < fp.acc.len() ==> fp.acc@[i] == ops.zero,
        fp.digest@.len() == 0,
        fp.taken@.len() == 0,
    ensures
        fp.sums_up(ops, spectrum, setup, weights),
{
    let cols = setup.fp_size as int;
    assert forall|r: int, c: int|
        #![trigger fp.acc@[r * cols + c]]
        0 <= r < setup.n_freq_taps && 0 <= c < cols implies fp.acc@[r * cols + c] == acc_cell(
        ops,
        spectrum,
        setup.nstep as int,
        weights,
        fp.taken@,
        r,
        c,
    ) by {
        matrix::lemma_cell(setup.n_freq_taps as int, cols, r, c);
    }
    assert(0 * cols == 0);
}

/// What a fingerprint of the windows is: of those that fit, in their order, and
/// summed up over the spectrum; an error where none fits.
pub open spec fn fingerprinted<
    T: Copy,
    P: Fn(T, T) -> T,
    M: Fn(T, T) -> T,
    F: Fn(usize) -> Vec<T>,
>(
    out: Result<Fingerprint<T>, String>,
    arith: Arith<T, P, M>,
    audio_len: usize,
    setup: Setup,
    windows: Seq<BeatWindow>,
    weights: Seq<T>,
    column: F,
) -> bool {
    match out {
        Ok(fp) => {
            &&& fp.taken@ == windows_taken(audio_len, setup, windows)
            &&& fp.taken@.len() > 0
            &&& fp.acc.len() == setup.n_freq_taps * setup.fp_size
            &&& fp.digest.len() == fp.taken.len() * setup.fp_size
            &&& forall|ops: Ops<T>, spectrum: spec_fn(int) -> Seq<T>| #[trigger]
                arith.follows(ops) && #[trigger] tells(column, spectrum) ==> fp.sums_up(
                    ops,
                    spectrum,
                    setup,
                    weights,
                )
        },
        Err(e) => windows_taken(audio_len, setup, windows).len() == 0 && e@
            == "no valid beat snippets for spectrogram digest"@,
    }
}

/// The fingerprint taken from a spectrogram of the whole audio.
pub fn build_fingerprints_full<
    T: Copy,
    P: Fn(T, T) -> T,
    M: Fn(T, T) -> T,
    F: Fn(usize) -> Vec<T>,
>(
    arith: &Arith<T, P, M>,
    audio_len: usize,
    setup: &Setup,
    windows: &Vec<BeatWindow>,
    weights: &Vec<T>,
    column: &F,
) -> (out: Result<Fingerprint<T>, String>)
    requires
        arith.ready(),
        setup.nstep > 0,
        setup.nperseg > 0,
        setup.fp_size > 0,
        setup.n_freq_taps * setup.fp_size <= usize::MAX,
        audio_len >= setup.nperseg ==> setup.n_freq_taps * columns_in(
            audio_len as int,
            setup.nperseg as int,
            setup.nstep as int,
        ) <= usize::MAX,
        weights.len() == setup.n_freq_taps,
        gives_columns(*column, audio_len, setup.nperseg, setup.n_freq_taps),
    ensures
        audio_len < setup.nperseg ==> out is Err && out->Err_0@
            == "audio too short for full spectrogram"@,
        audio_len >= setup.nperseg ==> fingerprinted(
            out,
            *arith,
            audio_len,
            *setup,
            windows@,
            weights@,
            *column,
        ),
{
    let rows: usize = setup.n_freq_taps;
    let cols: usize = setup.fp_size;
    let full_cols: usize = match full_columns(audio_len, setup.nperseg, setup.nstep) {
        Some(n) => n,
        None => {
            return Err("audio too short for full spectrogram".to_owned());
        },
    };
    proof {
        assert forall|c: int| 0 <= c < full_cols implies 0 <= #[trigger] (c * setup.nstep) && 0 + c
            * setup.nstep + setup.nperseg <= audio_len by {
            columns_lie_in_the_audio(audio_len as int, setup.nperseg as int, setup.nstep as int, c);
        }
    }
    let matrix: Vec<T> = spectrogram(
        audio_len,
        setup.nperseg,
        rows,
        full_cols,
        0,
        setup.nstep,
        arith.zero,
        column,
    );
    let mut fp: Fingerprint<T> = empty_fingerprint(arith.zero, rows, cols);
    proof {
        assert forall|ops: Ops<T>, spectrum: spec_fn(int) -> Seq<T>| #[trigger]
            arith.follows(ops) && #[trigger] tells(*column, spectrum) implies fp.sums_up(
            ops,
            spectrum,
            *setup,
            weights@,
        ) by {
            lemma_empty_sums_up(fp, ops, spectrum, *setup, weights@);
        }
        assert(0 * cols == 0);
        assert(windows@.take(0) =~= Seq::<BeatWindow>::empty());
    }
    let mut i: usize = 0;
    while i < windows.len()
        invariant
            i <= windows.len(),
            arith.ready(),
            rows == setup.n_freq_taps,
            cols == setup.fp_size,
            setup.nstep > 0,
            setup.nperseg > 0,
            cols > 0,
            weights.len() == rows,
            audio_len >= setup.nperseg,
            full_cols == columns_in(audio_len as int, setup.nperseg as int, setup.nstep as int),
            matrix.len() == rows * full_cols,
            forall|spectrum: spec_fn(int) -> Seq<T>| #[trigger]
                tells(*column, spectrum) ==> holds_columns(
                    matrix@,
                    rows as int,
                    full_cols as int,
                    0,
                    setup.nstep as int,
                    spectrum,
                ),
            fp.acc.len() == rows * cols,
            fp.digest.len() == fp.taken.len() * cols,
            fp.taken@ == windows_taken(audio_len, *setup, windows@.take(i as int)),
            forall|ops: Ops<T>, spectrum: spec_fn(int) -> Seq<T>| #[trigger]
                arith.follows(ops) && #[trigger] tells(*column, spectrum) ==> fp.sums_up(
                    ops,
                    spectrum,
                    *setup,
                    weights@,
                ),
        decreases windows.len() - i,
    {
        let w: BeatWindow = windows[i];
        proof {
            assert(windows@.take(i + 1).drop_last() =~= windows@.take(i as int));
            if snippet_fits(audio_len, *setup, w.t_s, w.t_f, cols) {
                snippets_lie_in_the_full_spectrogram(audio_len, *setup, w.t_s, w.t_f, cols);
            }
        }
        if window_matches_legacy_rules(audio_len, setup, w.t_s, w.t_f, cols, full_cols) {
            let ghost before = fp;
            apply_window_weighting(
                arith,
                &mut fp,
                &matrix,
                full_cols,
                w.t_s,
                rows,
                cols,
                weights,
                w,
            );
            proof {
                let n = before.taken.len() as int;
                assert((n + 1) * cols == n * cols + cols) by (nonlinear_arith);
                assert forall|ops: Ops<T>, spectrum: spec_fn(int) -> Seq<T>| #[trigger]
                    arith.follows(ops) && #[trigger] tells(*column, spectrum) implies fp.sums_up(
                    ops,
                    spectrum,
                    *setup,
                    weights@,
                ) by {
                    assert forall|r: int, c: int|
                        0 <= r < rows && 0 <= c < cols implies #[trigger] matrix@[r * full_cols + (
                    w.t_s + c)] == spectrum((w.t_s + c) * setup.nstep)[r] by {
                        assert(0 + (w.t_s + c) * setup.nstep == (w.t_s + c) * setup.nstep);
                    }
                    lemma_window_adds_up(
                        before,
                        fp,
                        ops,
                        spectrum,
                        *setup,
                        weights@,
                        matrix@,
                        full_cols as int,
                        w.t_s as int,
                        w,
                    );
                }
            }
        }
        i += 1;
    }
    assert(windows@.take(i as int) =~= windows@);
    if fp.taken.len() == 0 {
        Err("no valid beat snippets for spectrogram digest".to_owned())
    } else {
        Ok(fp)
    }
}

/// The fingerprint taken from a spectrogram of each window by itself.
pub fn build_fingerprints_legacy<
    T: Copy,
    P: Fn(T, T) -> T,
    M: Fn(T, T) -> T,
    F: Fn(usize) -> Vec<T>,
>(
    arith: &Arith<T, P, M>,
    audio_len: usize,
    setup: &Setup,
    windows: &Vec<BeatWindow>,
    weights: &Vec<T>,
    column: &F,
) -> (out: Result<Fingerprint<T>, String>)
    requires
        arith.ready(),
        setup.nstep > 0,
        setup.nperseg > 0,
        setup.fp_size > 0,
        setup.n_freq_taps * setup.fp_size <= usize::MAX,
        weights.len() == setup.n_freq_taps,
        gives_columns(*column, audio_len, setup.nperseg, setup.n_freq_taps),
    ensures
        fingerprinted(out, *arith, audio_len, *setup, windows@, weights@, *column),
{
    let rows: usize = setup.n_freq_taps;
    let cols: usize = setup.fp_size;
    let mut fp: Fingerprint<T> = empty_fingerprint(arith.zero, rows, cols);
    proof {
        assert forall|ops: Ops<T>, spectrum: spec_fn(int) -> Seq<T>| #[trigger]
            arith.follows(ops) && #[trigger] tells(*column, spectrum) implies fp.sums_up(
            ops,
            spectrum,
            *setup,
            weights@,
        ) by {
            lemma_empty_sums_up(fp, ops, spectrum, *setup, weights@);
        }
        assert(0 * cols == 0);
        assert(windows@.take(0) =~= Seq::<BeatWindow>::empty());
    }
    let mut i: usize = 0;
    while i < windows.len()
        invariant
            i <= windows.len(),
            arith.ready(),
            rows == setup.n_freq_taps,
            cols == setup.fp_size,
            setup.nstep > 0,
            setup.nperseg > 0,
            cols > 0,
            rows * cols <= usize::MAX,
            weights.len() == rows,
            gives_columns(*column, audio_len, setup.nperseg, rows),
            fp.acc.len() == rows * cols,
            fp.digest.len() == fp.taken.len() * cols,
            fp.taken@ == windows_taken(audio_len, *setup, windows@.take(i as int)),
            forall|ops: Ops<T>, spectrum: spec_fn(int) -> Seq<T>| #[trigger]
                arith.follows(ops) && #[trigger] tells(*column, spectrum) ==> fp.sums_up(
                    ops,
                    spectrum,
                    *setup,
                    weights@,
                ),
        decreases windows.len() - i,
    {
        let w: BeatWindow = windows[i];
        proof {
            assert(windows@.take(i + 1).drop_last() =~= windows@.take(i as int));
        }
        match snippet_span(audio_len, setup, w.t_s, w.t_f, cols) {
            Some(span) => {
                let sample_s: usize = span.0;
                let ghost sample_f = span.1;
                proof {
                    assert forall|c: int| 0 <= c < cols implies 0 <= #[trigger] (c * setup.nstep)
                        && sample_s + c * setup.nstep + setup.nperseg <= audio_len by {
                        columns_lie_in_the_audio(
                            sample_f - sample_s,
                            setup.nperseg as int,
                            setup.nstep as int,
                            c,
                        );
                    }
                }
                let matrix: Vec<T> = spectrogram(
                    audio_len,
                    setup.nperseg,
                    rows,
                    cols,
                    sample_s,
                    setup.nstep,
                    arith.zero,
                    column,
                );
                let ghost before = fp;
                apply_window_weighting(arith, &mut fp, &matrix, cols, 0, rows, cols, weights, w);
                proof {
                    let n = before.taken.len() as int;
                    assert((n + 1) * cols == n * cols + cols) by (nonlinear_arith);
                    assert forall|ops: Ops<T>, spectrum: spec_fn(int) -> Seq<T>| #[trigger]
                        arith.follows(ops) && #[trigger] tells(
                        *column,
                        spectrum,
                    ) implies fp.sums_up(ops, spectrum, *setup, weights@) by {
                        assert forall|r: int, c: int|
                            0 <= r < rows && 0 <= c < cols implies #[trigger] matrix@[r * cols + (0
                            + c)] == spectrum((w.t_s + c) * setup.nstep)[r] by {
                            assert(matrix@[r * cols + c] == spectrum(
                                sample_s + c * setup.nstep,
                            )[r]);
                            assert(w.t_s * setup.nstep + c * setup.nstep == (w.t_s + c)
                                * setup.nstep) by (nonlinear_arith);
                        }
                        lemma_window_adds_up(
                            before,
                            fp,
                            ops,
                            spectrum,
                            *setup,
                            weights@,
                            matrix@,
                            cols as int,
                            0,
                            w,
                        );
                    }
                }
            },
            None => {},
        }
        i += 1;
    }
    assert(windows@.take(i as int) =~= windows@);
    if fp.taken.len() == 0 {
        Err("no valid beat snippets for spectrogram digest".to_owned())
    } else {
        Ok(fp)
    }
}

/// The two ways of taking a fingerprint agree: where the columns are a function
/// of their samples, and sums and products of their operands, a fingerprint from
/// the spectrogram of the whole audio is the fingerprint from the spectrograms of
/// its windows.
pub proof fn full_spectrogram_matches_legacy<
    T: Copy,
    P: Fn(T, T) -> T,
    M: Fn(T, T) -> T,
    F: Fn(usize) -> Vec<T>,
>(
    full: Result<Fingerprint<T>, String>,
    legacy: Result<Fingerprint<T>, String>,
    arith: Arith<T, P, M>,
    audio_len: usize,
    setup: Setup,
    windows: Seq<BeatWindow>,
    weights: Seq<T>,
    column: F,
    ops: Ops<T>,
    spectrum: spec_fn(int) -> Seq<T>,
)
    requires
        setup.fp_size > 0,
        arith.follows(ops),
        tells(column, spectrum),
        fingerprinted(full, arith, audio_len, setup, windows, weights, column),
        fingerprinted(legacy, arith, audio_len, setup, windows, weights, column),
    ensures
        full is Ok == legacy is Ok,
        full is Ok ==> {
            &&& full->Ok_0.acc@ == legacy->Ok_0.acc@
            &&& full->Ok_0.digest@ == legacy->Ok_0.digest@
            &&& full->Ok_0.taken@ == legacy->Ok_0.taken@
        },
        full is Err ==> full->Err_0@ == legacy->Err_0@,
{
    if full is Ok {
        fingerprints_are_determined(full->Ok_0, legacy->Ok_0, ops, spectrum, setup, weights);
    }
}

// ---------------------------------------------------------------------------
// What a fingerprint sums up
// ---------------------------------------------------------------------------

/// There are as many columns as windows fit: the last of them still lies in the samples, and
/// one more would not.
pub proof fn as_many_columns_as_fit(samples: int, nperseg: int, nstep: int)
    requires
        0 < nperseg <= samples,
        nstep > 0,
    ensures
        columns_in(samples, nperseg, nstep) >= 1,
        (columns_in(samples, nperseg, nstep) - 1) * nstep + nperseg <= samples,
        columns_in(samples, nperseg, nstep) * nstep + nperseg > samples,
{
    let a = samples - nperseg;
    vstd::arithmetic::div_mod::lemma_fundamental_div_mod(a, nstep);
    vstd::arithmetic::div_mod::lemma_mod_bound(a, nstep);
    vstd::arithmetic::div_mod::lemma_div_pos_is_pos(a, nstep);
    let q = a / nstep;
    assert(q * nstep == nstep * q) by (nonlinear_arith);
    assert((q + 1) * nstep == nstep * q + nstep) by (nonlinear_arith);
}

/// A window takes in the samples from its first column to the end of its last, but none
/// behind the audio.
pub proof fn windows_take_in_their_columns(audio_len: usize, setup: Setup, t_s: usize, t_f: usize)
    ensures
        ({
            let (s, f) = window_samples(audio_len, setup, t_s, t_f);
            &&& s == t_s * setup.nstep
            &&& f <= audio_len
            &&& f <= t_f * setup.nstep + setup.nperseg - 1
            &&& f == audio_len || f == t_f * setup.nstep + setup.nperseg - 1
        }),
{
}

/// The spectrogram of the whole audio pays just where it has no more columns than the windows
/// have together and takes no more than 256 mebibytes; where it pays for some windows, it
/// pays for more.
pub proof fn whole_spectrograms_pay_for_many_windows(
    audio_len: usize,
    setup: Setup,
    windows: usize,
    more: usize,
)
    requires
        windows <= more,
        audio_len >= setup.nperseg,
    ensures
        ({
            let cols = columns_in(audio_len as int, setup.nperseg as int, setup.nstep as int);
            full_spectrogram_pays(audio_len, setup, windows) <==> cols <= windows * setup.fp_size
                && setup.n_freq_taps * cols * 8 <= 256 * 1024 * 1024
        }),
        full_spectrogram_pays(audio_len, setup, windows) ==> full_spectrogram_pays(
            audio_len,
            setup,
            more,
        ),
{
    assert(windows * setup.fp_size <= more * setup.fp_size) by (nonlinear_arith)
        requires
            windows <= more,
            setup.fp_size >= 0,
    ;
}

/// Every window counts in the accumulated spectrum, and every frequency in the digest, each
/// by its weight: one more is added to what those before it came to.
pub proof fn every_window_and_frequency_counts<T>(
    ops: Ops<T>,
    spectrum: spec_fn(int) -> Seq<T>,
    nstep: int,
    weights: Seq<T>,
    windows: Seq<BeatWindow>,
    next: BeatWindow,
    r: nat,
    c: int,
)
    ensures
        acc_cell(ops, spectrum, nstep, weights, windows.push(next), r as int, c) == (ops.sum)(
            acc_cell(ops, spectrum, nstep, weights, windows, r as int, c),
            (ops.product)(spectrum((next.t_s + c) * nstep)[r as int], weights[r as int]),
        ),
        acc_cell(ops, spectrum, nstep, weights, Seq::empty(), r as int, c) == ops.zero,
        digest_cell(ops, spectrum, nstep, weights, next, r + 1, c) == (ops.sum)(
            digest_cell(ops, spectrum, nstep, weights, next, r, c),
            (ops.product)(spectrum((next.t_s + c) * nstep)[r as int], weights[r as int]),
        ),
        digest_cell(ops, spectrum, nstep, weights, next, 0, c) == ops.zero,
{
    assert(windows.push(next).drop_last() =~= windows);
}

/// Whether sums can be taken in any order.
pub open spec fn sums_freely<T>(ops: Ops<T>) -> bool {
    &&& forall|a: T, b: T| #[trigger] (ops.sum)(a, b) == (ops.sum)(b, a)
    &&& forall|a: T, b: T, c: T| #[trigger]
        (ops.sum)((ops.sum)(a, b), c) == (ops.sum)(a, (ops.sum)(b, c))
    &&& forall|a: T| #[trigger] (ops.sum)(ops.zero, a) == a
}

/// What the first `rows` frequencies of the accumulated spectrum come to in a column.
pub open spec fn acc_total<T>(
    ops: Ops<T>,
    spectrum: spec_fn(int) -> Seq<T>,
    nstep: int,
    weights: Seq<T>,
    windows: Seq<BeatWindow>,
    rows: nat,
    c: int,
) -> T
    decreases rows,
{
    if rows == 0 {
        ops.zero
    } else {
        (ops.sum)(
            acc_total(ops, spectrum, nstep, weights, windows, (rows - 1) as nat, c),
            acc_cell(ops, spectrum, nstep, weights, windows, rows - 1, c),
        )
    }
}

/// What the digests of the windows come to in a column.
pub open spec fn digest_total<T>(
    ops: Ops<T>,
    spectrum: spec_fn(int) -> Seq<T>,
    nstep: int,
    weights: Seq<T>,
    windows: Seq<BeatWindow>,
    rows: nat,
    c: int,
) -> T
    decreases windows.len(),
{
    if windows.len() == 0 {
        ops.zero
    } else {
        (ops.sum)(
            digest_total(ops, spectrum, nstep, weights, windows.drop_last(), rows, c),
            digest_cell(ops, spectrum, nstep, weights, windows.last(), rows, c),
        )
    }
}

/// The accumulated spectrum and the digest sum up the same: where sums can be taken in any
/// order, all frequencies of the one come, in every column, to what all windows of the other
/// come to.
pub proof fn both_parts_sum_up_the_same<T>(
    ops: Ops<T>,
    spectrum: spec_fn(int) -> Seq<T>,
    nstep: int,
    weights: Seq<T>,
    windows: Seq<BeatWindow>,
    rows: nat,
    c: int,
)
    requires
        sums_freely(ops),
    ensures
        acc_total(ops, spectrum, nstep, weights, windows, rows, c) == digest_total(
            ops,
            spectrum,
            nstep,
            weights,
            windows,
            rows,
            c,
        ),
    decreases windows.len(),
{
    if windows.len() == 0 {
        lemma_empty_acc_total(ops, spectrum, nstep, weights, windows, rows, c);
    } else {
        both_parts_sum_up_the_same(ops, spectrum, nstep, weights, windows.drop_last(), rows, c);
        lemma_one_more_window(ops, spectrum, nstep, weights, windows, rows, c);
    }
}

proof fn lemma_empty_acc_total<T>(
    ops: Ops<T>,
    spectrum: spec_fn(int) -> Seq<T>,
    nstep: int,
    weights: Seq<T>,
    windows: Seq<BeatWindow>,
    rows: nat,
    c: int,
)
    requires
        sums_freely(ops),
        windows.len() == 0,
    ensures
        acc_total(ops, spectrum, nstep, weights, windows, rows, c) == ops.zero,
    decreases rows,
{
    if rows > 0 {
        lemma_empty_acc_total(ops, spectrum, nstep, weights, windows, (rows - 1) as nat, c);
        assert((ops.sum)(ops.zero, ops.zero) == ops.zero);
    }
}

proof fn lemma_one_more_window<T>(
    ops: Ops<T>,
    spectrum: spec_fn(int) -> Seq<T>,
    nstep: int,
    weights: Seq<T>,
    windows: Seq<BeatWindow>,
    rows: nat,
    c: int,
)
    requires
        sums_freely(ops),
        windows.len() > 0,
    ensures
        acc_total(ops, spectrum, nstep, weights, windows, rows, c) == (ops.sum)(
            acc_total(ops, spectrum, nstep, weights, windows.drop_last(), rows, c),
            digest_cell(ops, spectrum, nstep, weights, windows.last(), rows, c),
        ),
    decreases rows,
{
    if rows == 0 {
        assert((ops.sum)(ops.zero, ops.zero) == ops.zero);
    } else {
        let k = (rows - 1) as nat;
        lemma_one_more_window(ops, spectrum, nstep, weights, windows, k, c);
        let a = acc_total(ops, spectrum, nstep, weights, windows.drop_last(), k, c);
        let d = digest_cell(ops, spectrum, nstep, weights, windows.last(), k, c);
        let x = acc_cell(ops, spectrum, nstep, weights, windows.drop_last(), rows - 1, c);
        let y = weighted_cell(ops, spectrum, nstep, weights, windows.last(), rows - 1, c);
        assert((ops.sum)((ops.sum)(a, d), (ops.sum)(x, y)) == (ops.sum)(
            a,
            (ops.sum)(d, (ops.sum)(x, y)),
        ));
        assert((ops.sum)(d, (ops.sum)(x, y)) == (ops.sum)((ops.sum)(d, x), y));
        assert((ops.sum)(d, x) == (ops.sum)(x, d));
        assert((ops.sum)((ops.sum)(x, d), y) == (ops.sum)(x, (ops.sum)(d, y)));
        assert((ops.sum)(a, (ops.sum)(x, (ops.sum)(d, y))) == (ops.sum)(
            (ops.sum)(a, x),
            (ops.sum)(d, y),
        ));
    }
}

/// A window is taken just where its samples give as many columns as a fingerprint has, and
/// those that are taken keep their order.
pub proof fn fitting_windows_are_taken(
    audio_len: usize,
    setup: Setup,
    windows: Seq<BeatWindow>,
    next: BeatWindow,
)
    ensures
        windows_taken(audio_len, setup, Seq::empty()) == Seq::<BeatWindow>::empty(),
        snippet_fits(audio_len, setup, next.t_s, next.t_f, setup.fp_size) ==> windows_taken(
            audio_len,
            setup,
            windows.push(next),
        ) == windows_taken(audio_len, setup, windows).push(next),
        !snippet_fits(audio_len, setup, next.t_s, next.t_f, setup.fp_size) ==> windows_taken(
            audio_len,
            setup,
            windows.push(next),
        ) == windows_taken(audio_len, setup, windows),
        ({
            let s = next.t_s * setup.nstep;
            let end = next.t_f * setup.nstep + setup.nperseg - 1;
            let f = if end < audio_len {
                end
            } else {
                audio_len as int
            };
            snippet_fits(audio_len, setup, next.t_s, next.t_f, setup.fp_size) <==> f - s
                > setup.nperseg && 1 + (f - s - setup.nperseg) / (setup.nstep as int)
                == setup.fp_size
        }),
{
    assert(windows.push(next).drop_last() =~= windows);
}

} // verus!
