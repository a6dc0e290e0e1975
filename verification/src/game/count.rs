//! Counting the cells of a grid that satisfy a predicate.

use vstd::prelude::*;

verus! {

/// How many of the first `upto` cells of row `row` satisfy `p`.
pub open spec fn count_row(p: spec_fn(int, int) -> bool, row: int, upto: int) -> nat
    decreases upto,
{
    if upto <= 0 {
        0
    } else {
        count_row(p, row, upto - 1) + if p(upto - 1, row) {
            1nat
        } else {
            0nat
        }
    }
}

/// How many cells satisfy `p` in the first `rows` rows of a grid that is
/// `cols` cells wide. The predicate takes the column, then the row.
pub open spec fn count_cells(p: spec_fn(int, int) -> bool, cols: int, rows: int) -> nat
    decreases rows,
{
    if rows <= 0 {
        0
    } else {
        count_cells(p, cols, rows - 1) + count_row(p, rows - 1, cols)
    }
}

/// A row holds no more hits than cells.
pub proof fn lemma_count_row_bound(p: spec_fn(int, int) -> bool, row: int, upto: int)
    requires
        0 <= upto,
    ensures
        count_row(p, row, upto) <= upto,
    decreases upto,
{
    if upto > 0 {
        lemma_count_row_bound(p, row, upto - 1);
    }
}

/// A grid holds no more hits than cells.
pub proof fn lemma_count_cells_bound(p: spec_fn(int, int) -> bool, cols: int, rows: int)
    requires
        0 <= cols,
        0 <= rows,
    ensures
        count_cells(p, cols, rows) <= cols * rows,
    decreases rows,
{
    if rows > 0 {
        lemma_count_cells_bound(p, cols, rows - 1);
        lemma_count_row_bound(p, rows - 1, cols);
        assert(cols * (rows - 1) + cols == cols * rows) by (nonlinear_arith);
    } else {
        assert(cols * 0 == 0) by (nonlinear_arith);
    }
}

/// Where `p` implies `q` on a row, `q` counts at least as many cells.
pub proof fn lemma_count_row_mono(
    p: spec_fn(int, int) -> bool,
    q: spec_fn(int, int) -> bool,
    row: int,
    upto: int,
)
    requires
        forall|c: int| 0 <= c < upto && #[trigger] p(c, row) ==> q(c, row),
    ensures
        count_row(p, row, upto) <= count_row(q, row, upto),
    decreases upto,
{
    if upto > 0 {
        lemma_count_row_mono(p, q, row, upto - 1);
    }
}

/// Where `p` implies `q` on a grid, `q` counts at least as many cells.
pub proof fn lemma_count_cells_mono(
    p: spec_fn(int, int) -> bool,
    q: spec_fn(int, int) -> bool,
    cols: int,
    rows: int,
)
    requires
        forall|c: int, r: int| 0 <= c < cols && 0 <= r < rows && #[trigger] p(c, r) ==> q(c, r),
    ensures
        count_cells(p, cols, rows) <= count_cells(q, cols, rows),
    decreases rows,
{
    if rows > 0 {
        lemma_count_cells_mono(p, q, cols, rows - 1);
        lemma_count_row_mono(p, q, rows - 1, cols);
    }
}

/// Predicates that agree on a grid count the same number of cells.
pub proof fn lemma_count_cells_same(
    p: spec_fn(int, int) -> bool,
    q: spec_fn(int, int) -> bool,
    cols: int,
    rows: int,
)
    requires
        forall|c: int, r: int| 0 <= c < cols && 0 <= r < rows ==> #[trigger] p(c, r) == q(c, r),
    ensures
        count_cells(p, cols, rows) == count_cells(q, cols, rows),
{
    lemma_count_cells_mono(p, q, cols, rows);
    lemma_count_cells_mono(q, p, cols, rows);
}

/// Where `q` differs from `p` on a row only in holding at one more cell, it
/// counts one more.
pub proof fn lemma_count_row_gain(
    p: spec_fn(int, int) -> bool,
    q: spec_fn(int, int) -> bool,
    row: int,
    upto: int,
    at: int,
)
    requires
        0 <= at < upto,
        !p(at, row),
        q(at, row),
        forall|c: int| 0 <= c < upto && c != at ==> #[trigger] p(c, row) == q(c, row),
    ensures
        count_row(q, row, upto) == count_row(p, row, upto) + 1,
    decreases upto,
{
    if upto - 1 == at {
        assert forall|c: int| 0 <= c < upto - 1 && #[trigger] p(c, row) implies q(c, row) by {}
        assert forall|c: int| 0 <= c < upto - 1 && #[trigger] q(c, row) implies p(c, row) by {}
        lemma_count_row_mono(p, q, row, upto - 1);
        lemma_count_row_mono(q, p, row, upto - 1);
    } else {
        lemma_count_row_gain(p, q, row, upto - 1, at);
    }
}

/// Where `q` differs from `p` on a grid only in holding at one more cell, it
/// counts one more.
pub proof fn lemma_count_cells_gain(
    p: spec_fn(int, int) -> bool,
    q: spec_fn(int, int) -> bool,
    cols: int,
    rows: int,
    at: (int, int),
)
    requires
        0 <= at.0 < cols,
        0 <= at.1 < rows,
        !p(at.0, at.1),
        q(at.0, at.1),
        forall|c: int, r: int|
            0 <= c < cols && 0 <= r < rows && (c, r) != at ==> #[trigger] p(c, r) == q(c, r),
    ensures
        count_cells(q, cols, rows) == count_cells(p, cols, rows) + 1,
    decreases rows,
{
    if rows - 1 == at.1 {
        lemma_count_cells_same(p, q, cols, rows - 1);
        lemma_count_row_gain(p, q, rows - 1, cols, at.0);
    } else {
        lemma_count_cells_gain(p, q, cols, rows - 1, at);
        assert forall|c: int| 0 <= c < cols && #[trigger] p(c, rows - 1) implies q(c, rows - 1) by {}
        assert forall|c: int| 0 <= c < cols && #[trigger] q(c, rows - 1) implies p(c, rows - 1) by {}
        lemma_count_row_mono(p, q, rows - 1, cols);
        lemma_count_row_mono(q, p, rows - 1, cols);
    }
}

/// A predicate and its negation split the cells of a grid between them.
pub proof fn lemma_count_cells_split(p: spec_fn(int, int) -> bool, cols: int, rows: int)
    requires
        0 <= cols,
        0 <= rows,
    ensures
        count_cells(p, cols, rows) + count_cells(|c: int, r: int| !p(c, r), cols, rows) == cols
            * rows,
    decreases rows,
{
    let q = |c: int, r: int| !p(c, r);
    if rows > 0 {
        lemma_count_cells_split(p, cols, rows - 1);
        lemma_count_row_split(p, rows - 1, cols);
        assert(cols * (rows - 1) + cols == cols * rows) by (nonlinear_arith);
    } else {
        assert(cols * 0 == 0) by (nonlinear_arith);
    }
}

/// A predicate and its negation split the cells of a row between them.
pub proof fn lemma_count_row_split(p: spec_fn(int, int) -> bool, row: int, upto: int)
    requires
        0 <= upto,
    ensures
        count_row(p, row, upto) + count_row(|c: int, r: int| !p(c, r), row, upto) == upto,
    decreases upto,
{
    if upto > 0 {
        lemma_count_row_split(p, row, upto - 1);
    }
}

/// Nothing is counted on a grid that holds no cell that satisfies `p`.
pub proof fn lemma_count_cells_zero(p: spec_fn(int, int) -> bool, cols: int, rows: int)
    requires
        forall|c: int, r: int| 0 <= c < cols && 0 <= r < rows ==> !#[trigger] p(c, r),
    ensures
        count_cells(p, cols, rows) == 0,
    decreases rows,
{
    if rows > 0 {
        lemma_count_cells_zero(p, cols, rows - 1);
        lemma_count_row_zero(p, rows - 1, cols);
    }
}

/// Nothing is counted on a row that holds no cell that satisfies `p`.
pub proof fn lemma_count_row_zero(p: spec_fn(int, int) -> bool, row: int, upto: int)
    requires
        forall|c: int| 0 <= c < upto ==> !#[trigger] p(c, row),
    ensures
        count_row(p, row, upto) == 0,
    decreases upto,
{
    if upto > 0 {
        lemma_count_row_zero(p, row, upto - 1);
    }
}

} // verus!
