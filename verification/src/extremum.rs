//! The sliding extremum filter: each cell becomes the least (erosion) or the
//! greatest (dilation) of the samples in a window centred on it.

use crate::dispatch::{is_share, lemma_every_row_owned, listed, owner, worker_rows, Partition};
use crate::grid::{Grid, GridView};
use crate::step::handled;
use std::collections::VecDeque;
use vstd::prelude::*;

verus! {

/// The direction of a pass.
#[derive(Clone, Copy, Debug, PartialEq, Eq, Structural)]
pub enum Morph {
    /// Each cell becomes the least sample of its window.
    Erosion,
    /// Each cell becomes the greatest sample of its window.
    Dilation,
}

/// Whether `a` goes before `b` in the direction of the pass.
pub open spec fn better(op: Morph, a: i64, b: i64) -> bool {
    match op {
        Morph::Erosion => a < b,
        Morph::Dilation => a > b,
    }
}

/// The extremum of two partial results, either of which may be empty.
pub open spec fn pick(op: Morph, a: Option<i64>, b: Option<i64>) -> Option<i64> {
    match a {
        None => b,
        Some(x) => match b {
            None => a,
            Some(y) => if better(op, y, x) {
                b
            } else {
                a
            },
        },
    }
}

/// The sample at a cell, if it holds one.
pub open spec fn sample(g: GridView, row: int, col: int) -> Option<i64> {
    if g.valid(row, col) {
        Some(g.cells[row][col])
    } else {
        None
    }
}

/// The extremum of the samples of column `col` in the rows `lo .. hi`, or
/// nothing where that slice holds no sample. Rows and columns outside the
/// grid hold none.
pub open spec fn column_extremum(g: GridView, op: Morph, col: int, lo: int, hi: int) -> Option<i64>
    decreases hi - lo,
{
    if hi <= lo {
        None
    } else {
        pick(op, column_extremum(g, op, col, lo, hi - 1), sample(g, hi - 1, col))
    }
}

/// The extremum of the samples in the rows `lo_r .. hi_r` and the columns
/// `lo_c .. hi_c`.
pub open spec fn window_extremum(
    g: GridView,
    op: Morph,
    lo_r: int,
    hi_r: int,
    lo_c: int,
    hi_c: int,
) -> Option<i64>
    decreases hi_c - lo_c,
{
    if hi_c <= lo_c {
        None
    } else {
        pick(
            op,
            window_extremum(g, op, lo_r, hi_r, lo_c, hi_c - 1),
            column_extremum(g, op, hi_c - 1, lo_r, hi_r),
        )
    }
}

/// What a pass makes of one cell: a cell without a sample stays so; any
/// other becomes the extremum of the samples within `my` rows and `mx`
/// columns of it.
pub open spec fn filtered_cell(g: GridView, op: Morph, mx: int, my: int, row: int, col: int) -> i64 {
    if !g.valid(row, col) {
        g.nodata
    } else {
        match window_extremum(g, op, row - my, row + my + 1, col - mx, col + mx + 1) {
            Some(v) => v,
            None => g.nodata,
        }
    }
}

/// What a pass makes of one row.
pub open spec fn filtered_row(g: GridView, op: Morph, mx: int, my: int, row: int) -> Seq<i64> {
    Seq::new(g.columns, |c: int| filtered_cell(g, op, mx, my, row, c))
}

/// What a pass makes of a grid.
pub open spec fn filtered(g: GridView, op: Morph, mx: int, my: int) -> GridView {
    GridView {
        rows: g.rows,
        columns: g.columns,
        nodata: g.nodata,
        cells: Seq::new(g.rows, |r: int| filtered_row(g, op, mx, my, r)),
    }
}

/// An opening: an erosion, then a dilation of what the erosion gave.
pub open spec fn opened(g: GridView, mx: int, my: int) -> GridView {
    filtered(filtered(g, Morph::Erosion, mx, my), Morph::Dilation, mx, my)
}

/// Rows above the grid add nothing to a column's extremum.
proof fn lemma_rows_above(g: GridView, op: Morph, col: int, lo: int, hi: int)
    requires
        lo <= 0,
    ensures
        column_extremum(g, op, col, lo, hi) == column_extremum(g, op, col, 0, hi),
    decreases hi - lo,
{
    if hi > lo {
        lemma_rows_above(g, op, col, lo, hi - 1);
    }
}

/// Rows below the grid add nothing to a column's extremum.
proof fn lemma_rows_below(g: GridView, op: Morph, col: int, lo: int, hi: int)
    requires
        hi >= g.rows,
        lo <= g.rows,
    ensures
        column_extremum(g, op, col, lo, hi) == column_extremum(g, op, col, lo, g.rows as int),
    decreases hi - g.rows,
{
    if hi > g.rows {
        lemma_rows_below(g, op, col, lo, hi - 1);
    }
}

/// A column outside the grid has no extremum.
proof fn lemma_column_outside(g: GridView, op: Morph, col: int, lo: int, hi: int)
    requires
        col < 0 || col >= g.columns,
    ensures
        column_extremum(g, op, col, lo, hi) is None,
    decreases hi - lo,
{
    if hi > lo {
        lemma_column_outside(g, op, col, lo, hi - 1);
    }
}

/// The extremum of two partial results.
pub fn pick_extremum(op: Morph, a: Option<i64>, b: Option<i64>) -> (best: Option<i64>)
    ensures
        best == pick(op, a, b),
{
    match a {
        None => b,
        Some(x) => match b {
            None => a,
            Some(y) => {
                let goes_first: bool = match op {
                    Morph::Erosion => y < x,
                    Morph::Dilation => y > x,
                };
                if goes_first {
                    b
                } else {
                    a
                }
            },
        },
    }
}

/// The extremum of the samples of column `col` in the rows `lo .. hi`.
pub fn column_slice_extremum(grid: &Grid, op: Morph, col: usize, lo: usize, hi: usize) -> (best:
    Option<i64>)
    requires
        grid.wf(),
        hi <= grid@.rows,
    ensures
        best == column_extremum(grid@, op, col as int, lo as int, hi as int),
{
    let mut best: Option<i64> = None;
    if col >= grid.columns() {
        proof {
            lemma_column_outside(grid@, op, col as int, lo as int, hi as int);
        }
        return best;
    }
    if hi <= lo {
        return best;
    }
    let mut r: usize = lo;
    while r < hi
        invariant
            grid.wf(),
            hi <= grid@.rows,
            col < grid@.columns,
            lo <= r <= hi,
            best == column_extremum(grid@, op, col as int, lo as int, r as int),
        decreases hi - r,
    {
        let v: i64 = grid.get(r, col);
        let entry: Option<i64> = if v != grid.nodata() {
            Some(v)
        } else {
            None
        };
        best = pick_extremum(op, best, entry);
        r += 1;
    }
    best
}

/// The first row of the window around `row`, clipped to the grid.
pub open spec fn clip_low(row: int, m: int) -> int {
    if row - m < 0 {
        0
    } else {
        row - m
    }
}

/// One past the last row of the window around `row`, clipped to the grid.
pub open spec fn clip_high(row: int, m: int, rows: int) -> int {
    if row + m + 1 > rows {
        rows
    } else {
        row + m + 1
    }
}

/// Clipping the rows of a window to the grid leaves a column's extremum as
/// it was.
proof fn lemma_clip_rows(g: GridView, op: Morph, col: int, row: int, my: int)
    requires
        0 <= row < g.rows,
        0 <= my,
    ensures
        column_extremum(g, op, col, row - my, row + my + 1) == column_extremum(
            g,
            op,
            col,
            clip_low(row, my),
            clip_high(row, my, g.rows as int),
        ),
{
    if row - my <= 0 {
        lemma_rows_above(g, op, col, row - my, row + my + 1);
        if row + my + 1 >= g.rows {
            lemma_rows_below(g, op, col, 0, row + my + 1);
        }
    } else {
        if row + my + 1 >= g.rows {
            lemma_rows_below(g, op, col, row - my, row + my + 1);
        }
    }
}

/// One row of a pass. The window is kept as a queue with one entry per
/// column in it, each entry the extremum of that column's slice: for the
/// first cell of the row every entry is computed; for each further cell the
/// oldest entry leaves and the entry of the column that comes into the
/// window joins.
pub fn filter_row(grid: &Grid, op: Morph, mx: usize, my: usize, row: usize) -> (line: Vec<i64>)
    requires
        grid.wf(),
        row < grid@.rows,
        2 * mx + 1 <= usize::MAX,
    ensures
        line@ == filtered_row(grid@, op, mx as int, my as int, row as int),
{
    let ghost g = grid@;
    proof {
        grid.lemma_view_wf();
    }
    let rows: usize = grid.rows();
    let columns: usize = grid.columns();
    let nodata: i64 = grid.nodata();
    let lo: usize = if my > row {
        0
    } else {
        row - my
    };
    let hi: usize = if my >= rows - 1 - row {
        rows
    } else {
        row + my + 1
    };
    assert(lo == clip_low(row as int, my as int));
    assert(hi == clip_high(row as int, my as int, rows as int));
    let width: usize = 2 * mx + 1;
    let mut window: VecDeque<Option<i64>> = VecDeque::with_capacity(width);
    let mut line: Vec<i64> = Vec::new();
    let mut col: usize = 0;
    while col < columns
        invariant
            col <= columns,
            grid.wf(),
            g == grid@,
            g.wf(),
            rows == g.rows,
            columns == g.columns,
            nodata == g.nodata,
            row < rows,
            width == 2 * mx + 1,
            lo == clip_low(row as int, my as int),
            hi == clip_high(row as int, my as int, rows as int),
            hi <= rows,
            line@.len() == col,
            forall|c: int|
                0 <= c < col ==> #[trigger] line@[c] == filtered_cell(
                    g,
                    op,
                    mx as int,
                    my as int,
                    row as int,
                    c,
                ),
            col > 0 ==> window@.len() == width,
            col == 0 ==> window@.len() == 0,
            col > 0 ==> forall|j: int|
                0 <= j < width ==> #[trigger] window@[j] == column_extremum(
                    g,
                    op,
                    col - 1 - mx + j,
                    row - my,
                    row + my + 1,
                ),
        decreases columns - col,
    {
        if col > 0 {
            let ghost before = window@;
            let _ = window.pop_front();
            let entering: Option<i64> = match col.checked_add(mx) {
                Some(c) => column_slice_extremum(grid, op, c, lo, hi),
                None => None,
            };
            proof {
                lemma_clip_rows(g, op, col + mx, row as int, my as int);
                if col + mx >= columns {
                    lemma_column_outside(g, op, col + mx, row - my, row + my + 1);
                    lemma_column_outside(g, op, col + mx, lo as int, hi as int);
                }
            }
            window.push_back(entering);
            assert forall|j: int| 0 <= j < width implies #[trigger] window@[j] == column_extremum(
                g,
                op,
                col - mx + j,
                row - my,
                row + my + 1,
            ) by {
                if j < width - 1 {
                    assert(window@[j] == before[j + 1]);
                }
            }
        } else {
            let mut j: usize = 0;
            while j < width
                invariant
                    j <= width,
                    col == 0,
                    grid.wf(),
                    g == grid@,
                    g.wf(),
                    rows == g.rows,
                    columns == g.columns,
                    row < rows,
                    width == 2 * mx + 1,
                    lo == clip_low(row as int, my as int),
                    hi == clip_high(row as int, my as int, rows as int),
                    hi <= rows,
                    window@.len() == j,
                    forall|i: int|
                        0 <= i < j ==> #[trigger] window@[i] == column_extremum(
                            g,
                            op,
                            i - mx,
                            row - my,
                            row + my + 1,
                        ),
                decreases width - j,
            {
                let ghost before = window@;
                let entry: Option<i64> = if j < mx {
                    None
                } else {
                    column_slice_extremum(grid, op, j - mx, lo, hi)
                };
                proof {
                    lemma_clip_rows(g, op, j - mx, row as int, my as int);
                    if j < mx {
                        lemma_column_outside(g, op, j - mx, row - my, row + my + 1);
                    }
                }
                window.push_back(entry);
                assert forall|i: int| 0 <= i < j + 1 implies #[trigger] window@[i]
                    == column_extremum(g, op, i - mx, row - my, row + my + 1) by {
                    if i < j {
                        assert(window@[i] == before[i]);
                    }
                }
                j += 1;
            }
        }
        let mut best: Option<i64> = None;
        let mut i: usize = 0;
        while i < width
            invariant
                i <= width,
                window@.len() == width,
                forall|j: int|
                    0 <= j < width ==> #[trigger] window@[j] == column_extremum(
                        g,
                        op,
                        col - mx + j,
                        row - my,
                        row + my + 1,
                    ),
                best == window_extremum(
                    g,
                    op,
                    row - my,
                    row + my + 1,
                    col - mx,
                    col - mx + i,
                ),
            decreases width - i,
        {
            best = pick_extremum(op, best, window[i]);
            i += 1;
        }
        let z: i64 = grid.get(row, col);
        let out: i64 = if z != nodata {
            match best {
                Some(v) => v,
                None => nodata,
            }
        } else {
            nodata
        };
        line.push(out);
        col += 1;
    }
    assert(line@ =~= filtered_row(g, op, mx as int, my as int, row as int));
    line
}

/// One pass over a whole grid. The rows are handled worker by worker, each
/// worker taking the rows that the scheme gives it; the outcome depends
/// neither on the scheme nor on the number of workers.
pub fn filter_pass(
    grid: &Grid,
    op: Morph,
    mx: usize,
    my: usize,
    scheme: Partition,
    workers: usize,
) -> (out: Grid)
    requires
        grid.wf(),
        2 * mx + 1 <= usize::MAX,
        workers >= 1,
    ensures
        out.wf(),
        out@ == filtered(grid@, op, mx as int, my as int),
{
    let ghost g = grid@;
    let ghost want = filtered(g, op, mx as int, my as int);
    proof {
        grid.lemma_view_wf();
    }
    let rows: usize = grid.rows();
    let columns: usize = grid.columns();
    let nodata: i64 = grid.nodata();
    let mut out: Grid = Grid::new(rows, columns, nodata, nodata);
    proof {
        assert forall|r: int| 0 <= r < rows implies owner(
            scheme,
            rows as int,
            workers as int,
            r,
        ) >= 0 by {
            lemma_every_row_owned(scheme, rows as int, workers as int, r);
        }
    }
    let mut t: usize = 0;
    while t < workers
        invariant
            t <= workers,
            workers >= 1,
            grid.wf(),
            g == grid@,
            2 * mx + 1 <= usize::MAX,
            want == filtered(g, op, mx as int, my as int),
            rows == g.rows,
            out.wf(),
            out@.wf(),
            out@.same_shape(g),
            forall|r: int|
                0 <= r < rows && owner(scheme, rows as int, workers as int, r) < t
                    ==> #[trigger] out@.cells[r] == want.cells[r],
        decreases workers - t,
    {
        let share: Vec<usize> = worker_rows(scheme, rows, workers, t);
        let mut j: usize = 0;
        while j < share.len()
            invariant
                j <= share@.len(),
                t < workers,
                grid.wf(),
                g == grid@,
                2 * mx + 1 <= usize::MAX,
                want == filtered(g, op, mx as int, my as int),
                rows == g.rows,
                out.wf(),
                out@.wf(),
                out@.same_shape(g),
                is_share(share@, scheme, rows as int, workers as int, t as int),
                forall|r: int|
                    0 <= r < rows && handled(
                        scheme,
                        rows as int,
                        workers as int,
                        t as int,
                        share@,
                        j as int,
                        r,
                    ) ==> #[trigger] out@.cells[r] == want.cells[r],
            decreases share@.len() - j,
        {
            let row: usize = share[j];
            let line: Vec<i64> = filter_row(grid, op, mx, my, row);
            let ghost before = out@;
            out.set_row_data(row, line);
            proof {
                assert forall|r: int|
                    0 <= r < rows && handled(
                        scheme,
                        rows as int,
                        workers as int,
                        t as int,
                        share@,
                        j + 1,
                        r,
                    ) implies #[trigger] out@.cells[r] == want.cells[r] by {
                    if r != row {
                        assert(out@.cells[r] == before.cells[r]);
                        if owner(scheme, rows as int, workers as int, r) == t {
                            let i = choose|i: int| 0 <= i < j + 1 && share@[i] == r;
                            assert(i < j);
                            assert(handled(
                                scheme,
                                rows as int,
                                workers as int,
                                t as int,
                                share@,
                                j as int,
                                r,
                            ));
                        }
                    }
                }
            }
            j += 1;
        }
        proof {
            assert forall|r: int|
                0 <= r < rows && owner(scheme, rows as int, workers as int, r) < t + 1
                implies #[trigger] out@.cells[r] == want.cells[r] by {
                if owner(scheme, rows as int, workers as int, r) == t {
                    assert(listed(share@, r));
                    let i = choose|i: int| 0 <= i < share@.len() && share@[i] == r;
                    assert(handled(
                        scheme,
                        rows as int,
                        workers as int,
                        t as int,
                        share@,
                        j as int,
                        r,
                    ));
                }
            }
        }
        t += 1;
    }
    proof {
        assert forall|r: int| 0 <= r < rows implies #[trigger] out@.cells[r] == want.cells[r] by {
            lemma_every_row_owned(scheme, rows as int, workers as int, r);
        }
        assert(out@.cells =~= want.cells);
    }
    out
}

} // verus!
