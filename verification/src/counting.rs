//! Counting cells of a grid that satisfy a predicate on their position,
//! walking the grid in row-major order.

use vstd::prelude::*;

verus! {

/// How many of the first `k` cells, in row-major order over rows of width
/// `w`, satisfy `p`. Cell number `n` is the cell at column `n % w` of row
/// `n / w`.
pub open spec fn count_pos(w: int, k: int, p: spec_fn(int, int) -> bool) -> int
    decreases k,
{
    if k <= 0 || w <= 0 {
        0
    } else {
        count_pos(w, k - 1, p) + if p((k - 1) % w, (k - 1) / w) {
            1int
        } else {
            0int
        }
    }
}

/// Cell number `y * w + x` is the cell at column `x` of row `y`.
pub proof fn lemma_rowmajor(x: int, y: int, w: int)
    requires
        0 <= x < w,
        0 <= y,
    ensures
        (y * w + x) % w == x,
        (y * w + x) / w == y,
        y * w + x >= 0,
        (y + 1) * w == y * w + w,
{
    assert((y * w + x) % w == x && (y * w + x) / w == y && y * w + x >= 0 && (y + 1) * w == y * w
        + w) by (nonlinear_arith)
        requires
            0 <= x < w,
            0 <= y,
    ;
}

/// The count lies between zero and `k`.
pub proof fn lemma_count_pos_bounds(w: int, k: int, p: spec_fn(int, int) -> bool)
    requires
        k >= 0,
    ensures
        0 <= count_pos(w, k, p) <= k,
    decreases k,
{
    if k > 0 {
        lemma_count_pos_bounds(w, k - 1, p);
    }
}

} // verus!
