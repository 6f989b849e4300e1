//! Row-major walks over a rectangle of cells, as the panel's write cursor
//! makes them.
use vstd::prelude::*;
use vstd::arithmetic::div_mod::{lemma_fundamental_div_mod, lemma_fundamental_div_mod_converse};

verus! {

/// The `k`-th cell of the `w` x `h` rectangle at (`x0`, `y0`), row by row,
/// starting over after the last cell.
pub open spec fn cell(x0: int, y0: int, w: int, h: int, k: int) -> (int, int) {
    (x0 + k % w, y0 + (k / w) % h)
}

/// The position of cell `c` in the row-by-row order of a rectangle `w` wide at
/// (`x0`, `y0`).
pub open spec fn cell_index(x0: int, y0: int, w: int, c: (int, int)) -> int {
    (c.1 - y0) * w + (c.0 - x0)
}

/// Whether `c` lies in the `w` x `h` rectangle at (`x0`, `y0`).
pub open spec fn in_box(x0: int, y0: int, w: int, h: int, c: (int, int)) -> bool {
    x0 <= c.0 < x0 + w && y0 <= c.1 < y0 + h
}

/// The cell after `c` in the row-by-row order, starting over after the last.
pub open spec fn next_cell(x0: int, y0: int, w: int, h: int, c: (int, int)) -> (int, int) {
    if c.0 < x0 + w - 1 {
        (c.0 + 1, c.1)
    } else {
        (x0, if c.1 < y0 + h - 1 { c.1 + 1 } else { y0 })
    }
}

/// The `k`-th cell lies in the rectangle and has position `k`.
pub proof fn lemma_cell_index(x0: int, y0: int, w: int, h: int, k: int)
    requires
        w > 0,
        h > 0,
        0 <= k < w * h,
    ensures
        in_box(x0, y0, w, h, cell(x0, y0, w, h, k)),
        cell_index(x0, y0, w, cell(x0, y0, w, h, k)) == k,
{
    let r = k / w;
    let m = k % w;
    lemma_fundamental_div_mod(k, w);
    assert(0 <= m < w);
    assert(k == w * r + m);
    assert(0 <= r < h) by (nonlinear_arith)
        requires
            k == w * r + m,
            0 <= m < w,
            0 <= k < w * h,
            w > 0;
    lemma_fundamental_div_mod_converse(r, h, 0, r);
    assert(r * w == w * r) by (nonlinear_arith);
}

/// A cell of the rectangle is the cell at its own position.
pub proof fn lemma_index_cell(x0: int, y0: int, w: int, h: int, c: (int, int))
    requires
        w > 0,
        h > 0,
        in_box(x0, y0, w, h, c),
    ensures
        0 <= cell_index(x0, y0, w, c) < w * h,
        cell(x0, y0, w, h, cell_index(x0, y0, w, c)) == c,
{
    let r = c.1 - y0;
    let m = c.0 - x0;
    let k = cell_index(x0, y0, w, c);
    assert(0 <= k < w * h) by (nonlinear_arith)
        requires
            k == r * w + m,
            0 <= m < w,
            0 <= r < h;
    lemma_fundamental_div_mod_converse(k, w, r, m);
    lemma_fundamental_div_mod_converse(r, h, 0, r);
}

/// Moving the cursor one cell on from the `k`-th cell reaches the `k + 1`-th.
pub proof fn lemma_cell_next(x0: int, y0: int, w: int, h: int, k: int)
    requires
        w > 0,
        h > 0,
        0 <= k < w * h,
    ensures
        next_cell(x0, y0, w, h, cell(x0, y0, w, h, k)) == cell(x0, y0, w, h, k + 1),
{
    let r = k / w;
    let m = k % w;
    lemma_fundamental_div_mod(k, w);
    assert(0 <= r < h) by (nonlinear_arith)
        requires
            k == w * r + m,
            0 <= m < w,
            0 <= k < w * h,
            w > 0;
    lemma_fundamental_div_mod_converse(r, h, 0, r);
    if m < w - 1 {
        assert(k + 1 == r * w + (m + 1)) by (nonlinear_arith)
            requires k == w * r + m;
        lemma_fundamental_div_mod_converse(k + 1, w, r, m + 1);
    } else {
        assert(k + 1 == (r + 1) * w + 0) by (nonlinear_arith)
            requires k == w * r + m, m == w - 1;
        lemma_fundamental_div_mod_converse(k + 1, w, r + 1, 0);
        if r + 1 < h {
            lemma_fundamental_div_mod_converse(r + 1, h, 0, r + 1);
        } else {
            lemma_fundamental_div_mod_converse(r + 1, h, 1, 0);
        }
    }
}


/// The cell after a cell of the rectangle is a cell of the rectangle.
pub proof fn lemma_next_cell_in_box(x0: int, y0: int, w: int, h: int, c: (int, int))
    requires
        in_box(x0, y0, w, h, c),
    ensures
        in_box(x0, y0, w, h, next_cell(x0, y0, w, h, c)),
{
}

} // verus!
