//! The kernels that a fingerprint is convolved with, and the convolution.

use crate::fingerprint::{Arith, Ops};
use crate::matrix;
use crate::model::BiasKernel;
use vstd::prelude::*;

verus! {

/// The five columns of a kernel. All of its five rows are the same.
pub open spec fn kernel_row(kind: BiasKernel) -> Seq<int> {
    if kind == BiasKernel::Loudest {
        seq![1int, 3, 10, 3, 1]
    } else {
        seq![1int, 1, 0, -1, -1]
    }
}

/// The kernel, row by row.
pub fn make_kernel(kind: BiasKernel) -> (kernel: [i32; 25])
    ensures
        forall|k: int| 0 <= k < 25 ==> #[trigger] kernel@[k] == kernel_row(kind)[k % 5],
{
    let kernel: [i32; 25] = if kind == BiasKernel::Loudest {
        [1, 3, 10, 3, 1, 1, 3, 10, 3, 1, 1, 3, 10, 3, 1, 1, 3, 10, 3, 1, 1, 3, 10, 3, 1]
    } else {
        [
            1,
            1,
            0,
            -1,
            -1,
            1,
            1,
            0,
            -1,
            -1,
            1,
            1,
            0,
            -1,
            -1,
            1,
            1,
            0,
            -1,
            -1,
            1,
            1,
            0,
            -1,
            -1,
        ]
    };
    kernel
}

/// The loudest kernel is the same both ways; the rising one changes its sign
/// when it is turned round, so that it finds rises and not falls.
pub proof fn kernels_are_balanced(c: int)
    requires
        0 <= c < 5,
    ensures
        kernel_row(BiasKernel::Loudest)[c] == kernel_row(BiasKernel::Loudest)[4 - c],
        kernel_row(BiasKernel::Rising)[c] == -kernel_row(BiasKernel::Rising)[4 - c],
{
    assert(c == 0 || c == 1 || c == 2 || c == 3 || c == 4);
}

/// The index that stands at `i` where the indices below `len` repeat without end.
pub open spec fn wrapped(i: int, len: int) -> int {
    i % len
}

pub fn wrap_idx(i: isize, len: usize) -> (out: usize)
    requires
        0 < len <= isize::MAX,
    ensures
        out == wrapped(i as int, len as int),
        out < len,
{
    if i >= 0 {
        i as usize % len
    } else {
        let back: usize = (-(i + 1)) as usize;
        let m: usize = back % len;
        proof {
            let l = len as int;
            vstd::arithmetic::div_mod::lemma_fundamental_div_mod(back as int, l);
            let q = back as int / l;
            assert(i == (-q - 1) * l + (l - 1 - m)) by (nonlinear_arith)
                requires
                    back == -(i + 1),
                    back == l * q + m,
            ;
            vstd::arithmetic::div_mod::lemma_fundamental_div_mod_converse(
                i as int,
                l,
                -q - 1,
                l - 1 - m,
            );
        }
        len - 1 - m
    }
}

/// The cell of the input under the tap `k` of the kernel, which is laid over
/// the cell (`r`, `c`) turned round and repeats the input beyond its edges.
pub open spec fn tap_place(rows: int, cols: int, r: int, c: int, k: int) -> int {
    wrapped(r - k / 5 + 2, rows) * cols + wrapped(c - k % 5 + 2, cols)
}

/// What the first `taps` taps of the kernel add up to, in their order.
pub open spec fn tap_sum<T>(
    ops: Ops<T>,
    input: Seq<T>,
    kernel: Seq<T>,
    rows: int,
    cols: int,
    r: int,
    c: int,
    taps: nat,
) -> T
    decreases taps,
{
    if taps == 0 {
        ops.zero
    } else {
        let k = taps - 1;
        (ops.sum)(
            tap_sum(ops, input, kernel, rows, cols, r, c, k as nat),
            (ops.product)(input[tap_place(rows, cols, r, c, k)], kernel[k]),
        )
    }
}

/// Whether a matrix is what a kernel makes of another, in the cells before the
/// cell (`r`, `c`).
pub open spec fn convolves<T>(
    ops: Ops<T>,
    input: Seq<T>,
    kernel: Seq<T>,
    out: Seq<T>,
    rows: int,
    cols: int,
    r: int,
    c: int,
) -> bool {
    forall|i: int, k: int|
        #![trigger out[i * cols + k]]
        0 <= k < cols && (0 <= i < r || (i == r && k < c)) ==> out[i * cols + k] == tap_sum(
            ops,
            input,
            kernel,
            rows,
            cols,
            i,
            k,
            25,
        )
}

/// The sum of the taps at one cell.
fn convolve_cell<T: Copy, P: Fn(T, T) -> T, M: Fn(T, T) -> T>(
    arith: &Arith<T, P, M>,
    input: &Vec<T>,
    rows: usize,
    cols: usize,
    kernel: &[T; 25],
    r: usize,
    c: usize,
) -> (sum: T)
    requires
        arith.ready(),
        input.len() == rows * cols,
        r < rows < isize::MAX - 2,
        c < cols < isize::MAX - 2,
    ensures
        forall|ops: Ops<T>| #[trigger]
            arith.follows(ops) ==> sum == tap_sum(
                ops,
                input@,
                kernel@,
                rows as int,
                cols as int,
                r as int,
                c as int,
                25,
            ),
{
    let mut sum: T = arith.zero;
    let mut kr: usize = 0;
    while kr < 5
        invariant
            kr <= 5,
            arith.ready(),
            input.len() == rows * cols,
            r < rows < isize::MAX - 2,
            c < cols < isize::MAX - 2,
            forall|ops: Ops<T>| #[trigger]
                arith.follows(ops) ==> sum == tap_sum(
                    ops,
                    input@,
                    kernel@,
                    rows as int,
                    cols as int,
                    r as int,
                    c as int,
                    (kr * 5) as nat,
                ),
        decreases 5 - kr,
    {
        let rr: usize = wrap_idx(r as isize - kr as isize + 2, rows);
        let mut kc: usize = 0;
        while kc < 5
            invariant
                kr < 5,
                kc <= 5,
                arith.ready(),
                input.len() == rows * cols,
                r < rows < isize::MAX - 2,
                c < cols < isize::MAX - 2,
                rr == wrapped(r - kr + 2, rows as int),
                rr < rows,
                forall|ops: Ops<T>| #[trigger]
                    arith.follows(ops) ==> sum == tap_sum(
                        ops,
                        input@,
                        kernel@,
                        rows as int,
                        cols as int,
                        r as int,
                        c as int,
                        (kr * 5 + kc) as nat,
                    ),
            decreases 5 - kc,
        {
            let cc: usize = wrap_idx(c as isize - kc as isize + 2, cols);
            proof {
                matrix::lemma_cell(rows as int, cols as int, rr as int, cc as int);
                assert((kr * 5 + kc) / 5 == kr && (kr * 5 + kc) % 5 == kc);
            }
            let k: usize = kr * 5 + kc;
            let ghost had = sum;
            let cell: T = input[rr * cols + cc];
            let tap: T = kernel[k];
            let v: T = (arith.times)(cell, tap);
            sum = (arith.plus)(sum, v);
            proof {
                assert forall|ops: Ops<T>| #[trigger] arith.follows(ops) implies sum == tap_sum(
                    ops,
                    input@,
                    kernel@,
                    rows as int,
                    cols as int,
                    r as int,
                    c as int,
                    (kr * 5 + kc + 1) as nat,
                ) by {
                    assert(v == (ops.product)(cell, tap));
                    assert(sum == (ops.sum)(had, v));
                    assert(tap_place(rows as int, cols as int, r as int, c as int, k as int) == rr
                        * cols + cc);
                }
            }
            kc += 1;
        }
        kr += 1;
    }
    sum
}

/// The convolution of a matrix with a kernel, of the size of the matrix.
pub fn convolve_wrap_5x5<T: Copy, P: Fn(T, T) -> T, M: Fn(T, T) -> T>(
    arith: &Arith<T, P, M>,
    input: &Vec<T>,
    rows: usize,
    cols: usize,
    kernel: &[T; 25],
) -> (out: Vec<T>)
    requires
        arith.ready(),
        input.len() == rows * cols,
        rows < isize::MAX - 2,
        cols < isize::MAX - 2,
    ensures
        out.len() == rows * cols,
        forall|ops: Ops<T>| #[trigger]
            arith.follows(ops) ==> convolves(
                ops,
                input@,
                kernel@,
                out@,
                rows as int,
                cols as int,
                rows as int,
                0,
            ),
{
    let mut out: Vec<T> = Vec::new();
    let mut r: usize = 0;
    assert(0 * cols == 0);
    while r < rows
        invariant
            r <= rows,
            arith.ready(),
            input.len() == rows * cols,
            rows < isize::MAX - 2,
            cols < isize::MAX - 2,
            out.len() == r * cols,
            forall|ops: Ops<T>| #[trigger]
                arith.follows(ops) ==> convolves(
                    ops,
                    input@,
                    kernel@,
                    out@,
                    rows as int,
                    cols as int,
                    r as int,
                    0,
                ),
        decreases rows - r,
    {
        let mut c: usize = 0;
        while c < cols
            invariant
                r < rows,
                c <= cols,
                arith.ready(),
                input.len() == rows * cols,
                rows < isize::MAX - 2,
                cols < isize::MAX - 2,
                out.len() == r * cols + c,
                forall|ops: Ops<T>| #[trigger]
                    arith.follows(ops) ==> convolves(
                        ops,
                        input@,
                        kernel@,
                        out@,
                        rows as int,
                        cols as int,
                        r as int,
                        c as int,
                    ),
            decreases cols - c,
        {
            let ghost before = out@;
            let sum: T = convolve_cell(arith, input, rows, cols, kernel, r, c);
            out.push(sum);
            proof {
                assert forall|ops: Ops<T>| #[trigger] arith.follows(ops) implies convolves(
                    ops,
                    input@,
                    kernel@,
                    out@,
                    rows as int,
                    cols as int,
                    r as int,
                    c + 1,
                ) by {
                    assert(convolves(
                        ops,
                        input@,
                        kernel@,
                        before,
                        rows as int,
                        cols as int,
                        r as int,
                        c as int,
                    ));
                    assert forall|i: int, k: int|
                        #![trigger out@[i * cols + k]]
                        0 <= k < cols && (0 <= i < r || (i == r && k < c + 1)) implies out@[i * cols
                        + k] == tap_sum(
                        ops,
                        input@,
                        kernel@,
                        rows as int,
                        cols as int,
                        i,
                        k,
                        25,
                    ) by {
                        if i < r {
                            matrix::lemma_cell(r as int, cols as int, i, k);
                            assert(before[i * cols + k] == out@[i * cols + k]);
                        } else if k < c {
                            assert(before[i * cols + k] == out@[i * cols + k]);
                        }
                    }
                }
            }
            c += 1;
        }
        assert((r + 1) * cols == r * cols + cols) by (nonlinear_arith);
        proof {
            assert forall|ops: Ops<T>| #[trigger] arith.follows(ops) implies convolves(
                ops,
                input@,
                kernel@,
                out@,
                rows as int,
                cols as int,
                r + 1,
                0,
            ) by {
                assert(convolves(
                    ops,
                    input@,
                    kernel@,
                    out@,
                    rows as int,
                    cols as int,
                    r as int,
                    c as int,
                ));
            }
        }
        r += 1;
    }
    out
}

/// What the first `rows` rows of a column add up to, in their order.
pub open spec fn column_total<T>(ops: Ops<T>, matrix: Seq<T>, cols: int, rows: nat, c: int) -> T
    decreases rows,
{
    if rows == 0 {
        ops.zero
    } else {
        (ops.sum)(
            column_total(ops, matrix, cols, (rows - 1) as nat, c),
            matrix[(rows - 1) * cols + c],
        )
    }
}

/// Whether a list holds the sums of the columns of a matrix.
pub open spec fn totals<T>(ops: Ops<T>, matrix: Seq<T>, cols: int, rows: nat, out: Seq<T>) -> bool {
    forall|c: int|
        0 <= c < out.len() ==> #[trigger] out[c] == column_total(ops, matrix, cols, rows, c)
}

/// The sum of one column.
fn total_column<T: Copy, P: Fn(T, T) -> T, M: Fn(T, T) -> T>(
    arith: &Arith<T, P, M>,
    matrix: &Vec<T>,
    rows: usize,
    cols: usize,
    c: usize,
) -> (sum: T)
    requires
        arith.ready(),
        matrix.len() == rows * cols,
        c < cols,
    ensures
        forall|ops: Ops<T>| #[trigger]
            arith.follows(ops) ==> sum == column_total(
                ops,
                matrix@,
                cols as int,
                rows as nat,
                c as int,
            ),
{
    let mut sum: T = arith.zero;
    let mut r: usize = 0;
    while r < rows
        invariant
            r <= rows,
            c < cols,
            arith.ready(),
            matrix.len() == rows * cols,
            forall|ops: Ops<T>| #[trigger]
                arith.follows(ops) ==> sum == column_total(
                    ops,
                    matrix@,
                    cols as int,
                    r as nat,
                    c as int,
                ),
        decreases rows - r,
    {
        proof {
            matrix::lemma_cell(rows as int, cols as int, r as int, c as int);
        }
        let ghost had = sum;
        let cell: T = matrix[r * cols + c];
        sum = (arith.plus)(sum, cell);
        proof {
            assert forall|ops: Ops<T>| #[trigger] arith.follows(ops) implies sum == column_total(
                ops,
                matrix@,
                cols as int,
                (r + 1) as nat,
                c as int,
            ) by {
                assert(sum == (ops.sum)(had, cell));
            }
        }
        r += 1;
    }
    sum
}

/// The sum of each column.
pub fn flatten_columns_sum<T: Copy, P: Fn(T, T) -> T, M: Fn(T, T) -> T>(
    arith: &Arith<T, P, M>,
    matrix: &Vec<T>,
    rows: usize,
    cols: usize,
) -> (out: Vec<T>)
    requires
        arith.ready(),
        matrix.len() == rows * cols,
    ensures
        out.len() == cols,
        forall|ops: Ops<T>| #[trigger]
            arith.follows(ops) ==> totals(ops, matrix@, cols as int, rows as nat, out@),
{
    let mut out: Vec<T> = Vec::new();
    let mut c: usize = 0;
    while c < cols
        invariant
            c <= cols,
            arith.ready(),
            matrix.len() == rows * cols,
            out.len() == c,
            forall|ops: Ops<T>| #[trigger]
                arith.follows(ops) ==> totals(ops, matrix@, cols as int, rows as nat, out@),
        decreases cols - c,
    {
        let ghost before = out@;
        let sum: T = total_column(arith, matrix, rows, cols, c);
        out.push(sum);
        proof {
            assert forall|ops: Ops<T>| #[trigger] arith.follows(ops) implies totals(
                ops,
                matrix@,
                cols as int,
                rows as nat,
                out@,
            ) by {
                assert(totals(ops, matrix@, cols as int, rows as nat, before));
                assert forall|k: int| 0 <= k < out.len() implies #[trigger] out@[k] == column_total(
                    ops,
                    matrix@,
                    cols as int,
                    rows as nat,
                    k,
                ) by {
                    if k < before.len() {
                        assert(out@[k] == before[k]);
                    }
                }
            }
        }
        c += 1;
    }
    out
}

// ---------------------------------------------------------------------------
// Turning round
// ---------------------------------------------------------------------------

/// Whether `turned` is the matrix with its columns moved by so many to the right,
/// those that leave it coming in again on the left.
pub open spec fn turns<T>(matrix: Seq<T>, turned: Seq<T>, rows: int, cols: int, by: int) -> bool {
    forall|r: int, c: int|
        0 <= r < rows && 0 <= c < cols ==> #[trigger] turned[r * cols + c] == matrix[r * cols
            + wrapped(c - by, cols)]
}

proof fn lemma_wrap_twice(x: int, y: int, n: int)
    requires
        n > 0,
    ensures
        wrapped(wrapped(x, n) + y, n) == wrapped(x + y, n),
        0 <= wrapped(x, n) < n,
{
    vstd::arithmetic::div_mod::lemma_add_mod_noop_right(y, x, n);
    vstd::arithmetic::div_mod::lemma_mod_bound(x, n);
}

proof fn lemma_taps_turn<T>(
    ops: Ops<T>,
    input: Seq<T>,
    turned: Seq<T>,
    kernel: Seq<T>,
    rows: int,
    cols: int,
    by: int,
    r: int,
    c: int,
    taps: nat,
)
    requires
        turns(input, turned, rows, cols, by),
        rows > 0,
        cols > 0,
    ensures
        tap_sum(ops, turned, kernel, rows, cols, r, c, taps) == tap_sum(
            ops,
            input,
            kernel,
            rows,
            cols,
            r,
            wrapped(c - by, cols),
            taps,
        ),
    decreases taps,
{
    if taps > 0 {
        let k = taps - 1;
        let row = wrapped(r - k / 5 + 2, rows);
        let over = 2 - k % 5;
        lemma_taps_turn(ops, input, turned, kernel, rows, cols, by, r, c, k as nat);
        lemma_wrap_twice(r - k / 5 + 2, 0, rows);
        lemma_wrap_twice(c + over, -by, cols);
        lemma_wrap_twice(c - by, over, cols);
        assert(turned[row * cols + wrapped(c + over, cols)] == input[row * cols + wrapped(
            c - by + over,
            cols,
        )]);
        assert(c + over == c - k % 5 + 2);
        assert(wrapped(c - by, cols) + over == wrapped(c - by, cols) - k % 5 + 2);
    }
}

/// The convolution has no edge: of a matrix whose columns are moved round, it is
/// the convolution with its columns moved round, so that what sounds later is found
/// later.
pub proof fn convolution_turns_with_its_input<T>(
    ops: Ops<T>,
    input: Seq<T>,
    turned: Seq<T>,
    kernel: Seq<T>,
    rows: int,
    cols: int,
    by: int,
    out: Seq<T>,
    turned_out: Seq<T>,
)
    requires
        turns(input, turned, rows, cols, by),
        rows > 0,
        cols > 0,
        convolves(ops, input, kernel, out, rows, cols, rows, 0),
        convolves(ops, turned, kernel, turned_out, rows, cols, rows, 0),
    ensures
        turns(out, turned_out, rows, cols, by),
{
    assert forall|r: int, c: int| 0 <= r < rows && 0 <= c < cols implies #[trigger] turned_out[r
        * cols + c] == out[r * cols + wrapped(c - by, cols)] by {
        lemma_taps_turn(ops, input, turned, kernel, rows, cols, by, r, c, 25);
        lemma_wrap_twice(c - by, 0, cols);
        let back = wrapped(c - by, cols);
        assert(out[r * cols + back] == tap_sum(ops, input, kernel, rows, cols, r, back, 25));
    }
}

/// The sums of the columns move round with the columns.
pub proof fn totals_turn_with_their_matrix<T>(
    ops: Ops<T>,
    matrix: Seq<T>,
    turned: Seq<T>,
    rows: nat,
    cols: int,
    by: int,
    c: int,
)
    requires
        turns(matrix, turned, rows as int, cols, by),
        0 <= c < cols,
    ensures
        column_total(ops, turned, cols, rows, c) == column_total(
            ops,
            matrix,
            cols,
            rows,
            wrapped(c - by, cols),
        ),
    decreases rows,
{
    if rows > 0 {
        assert forall|r: int, k: int| 0 <= r < rows - 1 && 0 <= k < cols implies #[trigger] turned[r
            * cols + k] == matrix[r * cols + wrapped(k - by, cols)] by {}
        totals_turn_with_their_matrix(ops, matrix, turned, (rows - 1) as nat, cols, by, c);
        assert(turned[(rows - 1) * cols + c] == matrix[(rows - 1) * cols + wrapped(c - by, cols)]);
    }
}

/// What the kernels look for: the rising one sets what comes behind a moment against what
/// comes before it, each of two columns alike and the moment itself not at all; the loudest
/// one weighs the moment ten times, its neighbours three times and theirs once. Over a sound
/// that does not change the rising one finds nothing.
pub proof fn kernels_look_for_rises_or_loudness(level: int)
    ensures
        kernel_row(BiasKernel::Rising) == seq![1int, 1, 0, -1, -1],
        kernel_row(BiasKernel::Loudest) == seq![1int, 3, 10, 3, 1],
        ({
            let row = kernel_row(BiasKernel::Rising);
            row[0] * level + row[1] * level + row[2] * level + row[3] * level + row[4] * level == 0
        }),
        ({
            let row = kernel_row(BiasKernel::Loudest);
            row[0] + row[1] + row[2] + row[3] + row[4] == 18 && row[2] > row[1] > row[0] > 0
        }),
{
    let row = kernel_row(BiasKernel::Rising);
    assert(row[0] == 1 && row[1] == 1 && row[2] == 0 && row[3] == -1 && row[4] == -1);
    assert(row[0] * level + row[1] * level + row[2] * level + row[3] * level + row[4] * level == 0)
        by (nonlinear_arith)
        requires
            row[0] == 1,
            row[1] == 1,
            row[2] == 0,
            row[3] == -1,
            row[4] == -1,
    ;
}

/// Indices repeat without end: the one that stands at a place is among the indices, and a
/// whole number of rounds away from it.
pub proof fn indices_repeat(i: int, len: int, rounds: int)
    requires
        len > 0,
    ensures
        0 <= wrapped(i, len) < len,
        0 <= i < len ==> wrapped(i, len) == i,
        wrapped(i + rounds * len, len) == wrapped(i, len),
        (i - wrapped(i, len)) % len == 0,
{
    vstd::arithmetic::div_mod::lemma_fundamental_div_mod(i, len);
    vstd::arithmetic::div_mod::lemma_mod_bound(i, len);
    if 0 <= i < len {
        vstd::arithmetic::div_mod::lemma_small_mod(i as nat, len as nat);
    }
    vstd::arithmetic::div_mod::lemma_mod_multiples_vanish(rounds, i, len);
    assert(rounds * len == len * rounds) by (nonlinear_arith);
    assert(i + rounds * len == len * rounds + i);
    assert(i - i % len == len * (i / len));
    assert(len * (i / len) == (i / len) * len) by (nonlinear_arith);
    vstd::arithmetic::div_mod::lemma_mod_multiples_basic(i / len, len);
}

/// The kernel is laid over a cell turned round: the tap in its middle meets the cell itself,
/// and one that stands so many rows and columns behind the middle meets the cell as many
/// before it, round the edges. Every tap is met by one cell of the input.
pub proof fn taps_meet_cells_the_other_way_round(
    rows: int,
    cols: int,
    r: int,
    c: int,
    down: int,
    right: int,
)
    requires
        0 <= r < rows,
        0 <= c < cols,
        -2 <= down <= 2,
        -2 <= right <= 2,
    ensures
        tap_place(rows, cols, r, c, 12) == r * cols + c,
        tap_place(rows, cols, r, c, (2 + down) * 5 + (2 + right)) == wrapped(r - down, rows) * cols
            + wrapped(c - right, cols),
        0 <= r - down < rows && 0 <= c - right < cols ==> tap_place(
            rows,
            cols,
            r,
            c,
            (2 + down) * 5 + (2 + right),
        ) == (r - down) * cols + (c - right),
{
    indices_repeat(r, rows, 0);
    indices_repeat(c, cols, 0);
    let k = (2 + down) * 5 + (2 + right);
    assert(k / 5 == 2 + down && k % 5 == 2 + right);
    assert(12int / 5 == 2 && 12int % 5 == 2);
    if 0 <= r - down < rows {
        indices_repeat(r - down, rows, 0);
    }
    if 0 <= c - right < cols {
        indices_repeat(c - right, cols, 0);
    }
}

/// Every tap counts once, and every row of a column: one more tap, or row, is added to what
/// those before it came to.
pub proof fn every_tap_and_row_counts<T>(
    ops: Ops<T>,
    input: Seq<T>,
    kernel: Seq<T>,
    rows: int,
    cols: int,
    r: int,
    c: int,
    n: nat,
)
    ensures
        tap_sum(ops, input, kernel, rows, cols, r, c, n + 1) == (ops.sum)(
            tap_sum(ops, input, kernel, rows, cols, r, c, n),
            (ops.product)(
                input[wrapped(r + 2 - n as int / 5, rows) * cols + wrapped(
                    c + 2 - n as int % 5,
                    cols,
                )],
                kernel[n as int],
            ),
        ),
        tap_sum(ops, input, kernel, rows, cols, r, c, 0) == ops.zero,
        column_total(ops, input, cols, n + 1, c) == (ops.sum)(
            column_total(ops, input, cols, n, c),
            input[n * cols + c],
        ),
        column_total(ops, input, cols, 0, c) == ops.zero,
{
}

} // verus!
