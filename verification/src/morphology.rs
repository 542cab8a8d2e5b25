//! What the sliding extremum filter guarantees: the extremum of a window is
//! one of its samples and is beaten by none; an erosion never raises a
//! sample and a dilation never lowers one; an opening applied twice gives
//! what it gave the first time.

use crate::extremum::{
    better, column_extremum, filtered, filtered_cell, opened, sample, window_extremum, Morph,
};
use crate::grid::GridView;
use vstd::prelude::*;

verus! {

/// Whether `(r, c)` lies within `my` rows and `mx` columns of `(row, col)`.
pub open spec fn in_window(row: int, col: int, mx: int, my: int, r: int, c: int) -> bool {
    row - my <= r <= row + my && col - mx <= c <= col + mx
}

/// Whether `v` is a sample of column `col` in the rows `lo .. hi`.
pub open spec fn in_column(g: GridView, col: int, lo: int, hi: int, v: i64) -> bool {
    exists|r: int| lo <= r < hi && #[trigger] g.valid(r, col) && g.cells[r][col] == v
}

/// Whether `v` is a sample of the cells in the rows `lo_r .. hi_r` and the
/// columns `lo_c .. hi_c`.
pub open spec fn in_rect(g: GridView, lo_r: int, hi_r: int, lo_c: int, hi_c: int, v: i64) -> bool {
    exists|r: int, c: int|
        lo_r <= r < hi_r && lo_c <= c < hi_c && #[trigger] g.valid(r, c) && g.cells[r][c] == v
}

/// The extremum of a column slice is one of its samples and is beaten by
/// none of them; a slice without an extremum holds no sample.
pub proof fn lemma_column_extremum(g: GridView, op: Morph, col: int, lo: int, hi: int)
    ensures
        match column_extremum(g, op, col, lo, hi) {
            Some(v) => in_column(g, col, lo, hi, v) && forall|r: int|
                lo <= r < hi && #[trigger] g.valid(r, col) ==> !better(op, g.cells[r][col], v),
            None => forall|r: int| lo <= r < hi ==> !#[trigger] g.valid(r, col),
        },
    decreases hi - lo,
{
    if hi > lo {
        lemma_column_extremum(g, op, col, lo, hi - 1);
        let before = column_extremum(g, op, col, lo, hi - 1);
        let last = sample(g, hi - 1, col);
        match column_extremum(g, op, col, lo, hi) {
            Some(v) => {
                if before == Some(v) {
                    let r = choose|r: int|
                        lo <= r < hi - 1 && #[trigger] g.valid(r, col) && g.cells[r][col] == v;
                    assert(lo <= r < hi && g.valid(r, col) && g.cells[r][col] == v);
                } else {
                    assert(last == Some(v));
                    assert(g.valid(hi - 1, col) && g.cells[hi - 1][col] == v);
                }
            },
            None => {},
        }
    }
}

/// The extremum of a window is one of its samples and is beaten by none of
/// them; a window without an extremum holds no sample.
pub proof fn lemma_window_extremum(
    g: GridView,
    op: Morph,
    lo_r: int,
    hi_r: int,
    lo_c: int,
    hi_c: int,
)
    ensures
        match window_extremum(g, op, lo_r, hi_r, lo_c, hi_c) {
            Some(v) => in_rect(g, lo_r, hi_r, lo_c, hi_c, v) && forall|r: int, c: int|
                lo_r <= r < hi_r && lo_c <= c < hi_c && #[trigger] g.valid(r, c) ==> !better(
                    op,
                    g.cells[r][c],
                    v,
                ),
            None => forall|r: int, c: int|
                lo_r <= r < hi_r && lo_c <= c < hi_c ==> !#[trigger] g.valid(r, c),
        },
    decreases hi_c - lo_c,
{
    if hi_c > lo_c {
        lemma_window_extremum(g, op, lo_r, hi_r, lo_c, hi_c - 1);
        lemma_column_extremum(g, op, hi_c - 1, lo_r, hi_r);
        let before = window_extremum(g, op, lo_r, hi_r, lo_c, hi_c - 1);
        let last = column_extremum(g, op, hi_c - 1, lo_r, hi_r);
        match window_extremum(g, op, lo_r, hi_r, lo_c, hi_c) {
            Some(v) => {
                if before == Some(v) {
                    let (r, c) = choose|r: int, c: int|
                        lo_r <= r < hi_r && lo_c <= c < hi_c - 1 && #[trigger] g.valid(r, c)
                            && g.cells[r][c] == v;
                    assert(lo_r <= r < hi_r && lo_c <= c < hi_c && g.valid(r, c) && g.cells[r][c]
                        == v);
                } else {
                    assert(last == Some(v));
                    let r = choose|r: int|
                        lo_r <= r < hi_r && #[trigger] g.valid(r, hi_c - 1) && g.cells[r][hi_c - 1]
                            == v;
                    assert(lo_r <= r < hi_r && lo_c <= hi_c - 1 < hi_c && g.valid(r, hi_c - 1)
                        && g.cells[r][hi_c - 1] == v);
                }
                assert forall|r: int, c: int|
                    lo_r <= r < hi_r && lo_c <= c < hi_c && #[trigger] g.valid(r, c) implies !better(
                    op,
                    g.cells[r][c],
                    v,
                ) by {
                    if c == hi_c - 1 {
                        assert(g.valid(r, hi_c - 1));
                    }
                }
            },
            None => {
                assert forall|r: int, c: int|
                    lo_r <= r < hi_r && lo_c <= c < hi_c implies !#[trigger] g.valid(r, c) by {
                    if c == hi_c - 1 {
                        if g.valid(r, hi_c - 1) {
                            assert(false);
                        }
                    }
                }
            },
        }
    }
}

/// Whether `v` is a sample of a cell in the window of `(row, col)`.
pub open spec fn in_window_of(g: GridView, row: int, col: int, mx: int, my: int, v: i64) -> bool {
    exists|r: int, c: int|
        in_window(row, col, mx, my, r, c) && #[trigger] g.valid(r, c) && g.cells[r][c] == v
}

/// What a pass makes of a cell with a sample: a sample of its window that
/// none of the window's samples beats. A cell without a sample stays
/// without.
pub proof fn lemma_filtered_cell(g: GridView, op: Morph, mx: int, my: int, row: int, col: int)
    requires
        0 <= mx,
        0 <= my,
    ensures
        !g.valid(row, col) ==> filtered_cell(g, op, mx, my, row, col) == g.nodata,
        g.valid(row, col) ==> {
            let v = filtered_cell(g, op, mx, my, row, col);
            &&& v != g.nodata
            &&& in_window_of(g, row, col, mx, my, v)
            &&& forall|r: int, c: int|
                in_window(row, col, mx, my, r, c) && #[trigger] g.valid(r, c) ==> !better(
                    op,
                    g.cells[r][c],
                    v,
                )
        },
{
    if g.valid(row, col) {
        lemma_window_extremum(g, op, row - my, row + my + 1, col - mx, col + mx + 1);
        let found = window_extremum(g, op, row - my, row + my + 1, col - mx, col + mx + 1);
        match found {
            Some(v) => {
                let (r, c) = choose|r: int, c: int|
                    row - my <= r < row + my + 1 && col - mx <= c < col + mx + 1
                        && #[trigger] g.valid(r, c) && g.cells[r][c] == v;
                assert(in_window(row, col, mx, my, r, c) && g.valid(r, c) && g.cells[r][c] == v);
            },
            None => {
                // The window holds the cell itself.
            },
        }
    }
}

/// A pass keeps the extent, the sentinel, and which cells hold a sample.
pub proof fn lemma_filtered_shape(g: GridView, op: Morph, mx: int, my: int)
    requires
        g.wf(),
        0 <= mx,
        0 <= my,
    ensures
        filtered(g, op, mx, my).wf(),
        filtered(g, op, mx, my).same_shape(g),
        forall|r: int, c: int|
            #[trigger] filtered(g, op, mx, my).valid(r, c) == g.valid(r, c),
        forall|r: int, c: int|
            g.inside(r, c) ==> #[trigger] filtered(g, op, mx, my).cells[r][c] == filtered_cell(
                g,
                op,
                mx,
                my,
                r,
                c,
            ),
{
    let f = filtered(g, op, mx, my);
    assert forall|r: int, c: int| #[trigger] f.valid(r, c) == g.valid(r, c) by {
        if g.inside(r, c) {
            lemma_filtered_cell(g, op, mx, my, r, c);
            assert(f.cells[r][c] == filtered_cell(g, op, mx, my, r, c));
        }
    }
}

/// Wherever a cell holds a sample, an erosion gives at most that sample and
/// a dilation at least that sample.
pub proof fn lemma_erosion_below_dilation_above(g: GridView, mx: int, my: int, row: int, col: int)
    requires
        g.wf(),
        0 <= mx,
        0 <= my,
        g.valid(row, col),
    ensures
        filtered(g, Morph::Erosion, mx, my).valid(row, col),
        filtered(g, Morph::Dilation, mx, my).valid(row, col),
        filtered(g, Morph::Erosion, mx, my).cells[row][col] <= g.cells[row][col],
        g.cells[row][col] <= filtered(g, Morph::Dilation, mx, my).cells[row][col],
{
    lemma_filtered_shape(g, Morph::Erosion, mx, my);
    lemma_filtered_shape(g, Morph::Dilation, mx, my);
    lemma_filtered_cell(g, Morph::Erosion, mx, my, row, col);
    lemma_filtered_cell(g, Morph::Dilation, mx, my, row, col);
    assert(in_window(row, col, mx, my, row, col));
}

/// An erosion of a dilation of an erosion is the erosion.
proof fn lemma_erosion_absorbs(g: GridView, mx: int, my: int, row: int, col: int)
    requires
        g.wf(),
        0 <= mx,
        0 <= my,
        g.inside(row, col),
    ensures
        filtered_cell(opened(g, mx, my), Morph::Erosion, mx, my, row, col) == filtered_cell(
            g,
            Morph::Erosion,
            mx,
            my,
            row,
            col,
        ),
{
    let y = filtered(g, Morph::Erosion, mx, my);
    let z = filtered(y, Morph::Dilation, mx, my);
    lemma_filtered_shape(g, Morph::Erosion, mx, my);
    lemma_filtered_shape(y, Morph::Dilation, mx, my);
    lemma_filtered_cell(z, Morph::Erosion, mx, my, row, col);
    lemma_filtered_cell(g, Morph::Erosion, mx, my, row, col);
    if g.valid(row, col) {
        let w = filtered_cell(z, Morph::Erosion, mx, my, row, col);
        let yp = filtered_cell(g, Morph::Erosion, mx, my, row, col);
        // The outcome is a sample of the opening at some cell `q` of the
        // window. The opening at `q` is the greatest eroded sample around
        // `q`, and the cell itself lies around `q`.
        let (qr, qc) = choose|r: int, c: int|
            in_window(row, col, mx, my, r, c) && #[trigger] z.valid(r, c) && z.cells[r][c] == w;
        lemma_filtered_cell(y, Morph::Dilation, mx, my, qr, qc);
        assert(in_window(qr, qc, mx, my, row, col));
        assert(w >= yp);
        // The eroded sample is the input at some cell `s` of the window.
        // The opening at `s` is an eroded sample at some cell `t` around
        // `s`, which is at most the input at `s`, since `s` lies around `t`.
        let (sr, sc) = choose|r: int, c: int|
            in_window(row, col, mx, my, r, c) && #[trigger] g.valid(r, c) && g.cells[r][c] == yp;
        assert(z.valid(sr, sc));
        lemma_filtered_cell(y, Morph::Dilation, mx, my, sr, sc);
        let zs = z.cells[sr][sc];
        let (tr, tc) = choose|r: int, c: int|
            in_window(sr, sc, mx, my, r, c) && #[trigger] y.valid(r, c) && y.cells[r][c] == zs;
        lemma_filtered_cell(g, Morph::Erosion, mx, my, tr, tc);
        assert(in_window(tr, tc, mx, my, sr, sc));
        assert(w <= yp);
    }
}

/// An opening is idempotent: opening what an opening gave, with the same
/// window, changes nothing.
pub proof fn lemma_opening_idempotent(g: GridView, mx: int, my: int)
    requires
        g.wf(),
        0 <= mx,
        0 <= my,
    ensures
        opened(opened(g, mx, my), mx, my) == opened(g, mx, my),
{
    let y = filtered(g, Morph::Erosion, mx, my);
    let z = opened(g, mx, my);
    let w = filtered(z, Morph::Erosion, mx, my);
    lemma_filtered_shape(g, Morph::Erosion, mx, my);
    lemma_filtered_shape(y, Morph::Dilation, mx, my);
    lemma_filtered_shape(z, Morph::Erosion, mx, my);
    assert forall|r: int| 0 <= r < g.rows implies #[trigger] w.cells[r] == y.cells[r] by {
        assert forall|c: int| 0 <= c < g.columns implies #[trigger] w.cells[r][c]
            == y.cells[r][c] by {
            lemma_erosion_absorbs(g, mx, my, r, c);
        }
    }
    assert(w.cells =~= y.cells);
}

} // verus!
