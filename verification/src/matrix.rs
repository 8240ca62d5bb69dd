//! Places in matrices that are stored row by row.

use vstd::prelude::*;

verus! {

/// A row lies in the matrix, and the next one stands right behind it.
pub(crate) proof fn lemma_row(rows: int, cols: int, r: int)
    by (nonlinear_arith)
    requires
        0 <= r < rows,
        0 <= cols,
    ensures
        0 <= r * cols,
        (r + 1) * cols == r * cols + cols,
        (r + 1) * cols <= rows * cols,
{
}

/// A cell lies in the matrix.
pub(crate) proof fn lemma_cell(rows: int, cols: int, r: int, c: int)
    requires
        0 <= r < rows,
        0 <= c < cols,
    ensures
        0 <= r * cols,
        0 <= r * cols + c < rows * cols,
        (r + 1) * cols == r * cols + cols,
        (r + 1) * cols <= rows * cols,
{
    lemma_row(rows, cols, r);
}

/// Two cells stand at one place only if they are the same cell.
pub(crate) proof fn lemma_cells_apart(cols: int, r1: int, c1: int, r2: int, c2: int)
    by (nonlinear_arith)
    requires
        0 <= c1 < cols,
        0 <= c2 < cols,
        r1 * cols + c1 == r2 * cols + c2,
    ensures
        r1 == r2,
        c1 == c2,
{
}

} // verus!
