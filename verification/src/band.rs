//! Bands: co-registered grids with a known range of samples, and the cell
//! tuples that a stack of bands holds.

use crate::centroid::{sample_ok, samples_ok, SAMPLE_LIMIT};
use crate::grid::{Grid, GridView};
use vstd::prelude::*;

verus! {

/// Whether every sample of `grid` lies within `minimum ..= maximum`, and that
/// range and the nodata sentinel within the sample limit.
pub open spec fn range_covers(grid: GridView, minimum: i64, maximum: i64) -> bool {
    &&& -SAMPLE_LIMIT <= minimum <= maximum <= SAMPLE_LIMIT
    &&& sample_ok(grid.nodata)
    &&& forall|r: int, c: int| #[trigger]
        grid.valid(r, c) ==> minimum <= grid.cells[r][c] <= maximum
}

/// One layer of a multi-band image, with the range of its samples.
pub struct Band {
    pub grid: Grid,
    pub minimum: i64,
    pub maximum: i64,
}

impl Band {
    /// The grid is well formed and the range covers its samples.
    pub open spec fn wf(&self) -> bool {
        &&& self.grid.wf()
        &&& self.grid@.wf()
        &&& range_covers(self.grid@, self.minimum, self.maximum)
    }

    /// A band over `grid` with the stated range, when the range and the
    /// sentinel lie within the sample limit and the range covers every sample
    /// of the grid.
    pub fn new(grid: Grid, minimum: i64, maximum: i64) -> (band: Option<Band>)
        requires
            grid.wf(),
        ensures
            band.is_some() <==> range_covers(grid@, minimum, maximum),
            band.is_some() ==> {
                let b = band.unwrap();
                b.wf() && b.grid@ == grid@ && b.minimum == minimum && b.maximum == maximum
            },
    {
        proof {
            grid.lemma_view_wf();
        }
        if !(-SAMPLE_LIMIT <= minimum && minimum <= maximum && maximum <= SAMPLE_LIMIT) {
            return None;
        }
        if !(-SAMPLE_LIMIT <= grid.nodata() && grid.nodata() <= SAMPLE_LIMIT) {
            return None;
        }
        let rows: usize = grid.rows();
        let columns: usize = grid.columns();
        let mut r: usize = 0;
        while r < rows
            invariant
                r <= rows,
                grid.wf(),
                grid@.wf(),
                rows == grid@.rows,
                columns == grid@.columns,
                forall|i: int, c: int|
                    0 <= i < r && #[trigger] grid@.valid(i, c) ==> minimum <= grid@.cells[i][c]
                        <= maximum,
            decreases rows - r,
        {
            let mut c: usize = 0;
            while c < columns
                invariant
                    c <= columns,
                    r < rows,
                    grid.wf(),
                    grid@.wf(),
                    rows == grid@.rows,
                    columns == grid@.columns,
                    forall|i: int, j: int|
                        0 <= i < r && #[trigger] grid@.valid(i, j) ==> minimum <= grid@.cells[i][j]
                            <= maximum,
                    forall|j: int|
                        0 <= j < c && #[trigger] grid@.valid(r as int, j) ==> minimum
                            <= grid@.cells[r as int][j] <= maximum,
                decreases columns - c,
            {
                let v: i64 = grid.get(r, c);
                if v != grid.nodata() && !(minimum <= v && v <= maximum) {
                    assert(grid@.valid(r as int, c as int));
                    return None;
                }
                c += 1;
            }
            r += 1;
        }
        Some(Band { grid, minimum, maximum })
    }
}

/// The grids of a stack of bands.
pub open spec fn grids(bands: Seq<Band>) -> Seq<GridView> {
    Seq::new(bands.len(), |i: int| bands[i].grid@)
}

/// A stack of well-formed bands that share one extent.
pub open spec fn stack_wf(bands: Seq<Band>) -> bool {
    &&& bands.len() >= 1
    &&& forall|i: int| 0 <= i < bands.len() ==> (#[trigger] bands[i]).wf()
    &&& forall|i: int|
        0 <= i < bands.len() ==> (#[trigger] bands[i]).grid@.rows == bands[0].grid@.rows
            && bands[i].grid@.columns == bands[0].grid@.columns
}

/// The rows of a stack: those of its first band, or none for an empty stack.
pub open spec fn stack_rows(g: Seq<GridView>) -> nat {
    if g.len() == 0 {
        0
    } else {
        g[0].rows
    }
}

/// The columns of a stack: those of its first band, or none for an empty
/// stack.
pub open spec fn stack_columns(g: Seq<GridView>) -> nat {
    if g.len() == 0 {
        0
    } else {
        g[0].columns
    }
}

/// A cell is valid when no band reports nodata there.
pub open spec fn cell_valid(g: Seq<GridView>, row: int, col: int) -> bool {
    forall|i: int| 0 <= i < g.len() ==> (#[trigger] g[i]).valid(row, col)
}

/// The stack of per-band samples at a cell.
pub open spec fn cell_tuple(g: Seq<GridView>, row: int, col: int) -> Seq<i64> {
    Seq::new(g.len(), |i: int| g[i].cells[row][col])
}

/// The samples of a valid cell of a well-formed stack lie within the limit.
pub proof fn lemma_cell_samples_ok(bands: Seq<Band>, row: int, col: int)
    requires
        stack_wf(bands),
        cell_valid(grids(bands), row, col),
    ensures
        samples_ok(cell_tuple(grids(bands), row, col)),
{
    let g = grids(bands);
    let v = cell_tuple(g, row, col);
    assert forall|i: int| 0 <= i < v.len() implies sample_ok(#[trigger] v[i]) by {
        assert(g[i].valid(row, col));
        assert(bands[i].wf());
        assert(bands[i].grid@.valid(row, col));
    }
}

/// The cell tuple at `(row, col)`, or nothing where some band has nodata or
/// the position lies outside the extent.
pub fn read_cell(bands: &Vec<Band>, row: usize, col: usize) -> (value: Option<Vec<i64>>)
    requires
        stack_wf(bands@),
    ensures
        value.is_some() <==> cell_valid(grids(bands@), row as int, col as int),
        value.is_some() ==> value.unwrap()@ == cell_tuple(grids(bands@), row as int, col as int),
{
    let ghost g = grids(bands@);
    let mut value: Vec<i64> = Vec::new();
    let mut i: usize = 0;
    while i < bands.len()
        invariant
            i <= bands@.len(),
            stack_wf(bands@),
            g == grids(bands@),
            value@.len() == i,
            forall|j: int| 0 <= j < i ==> (#[trigger] g[j]).valid(row as int, col as int),
            forall|j: int| 0 <= j < i ==> value@[j] == #[trigger] g[j].cells[row as int][col as int],
        decreases bands@.len() - i,
    {
        assert(bands@[i as int].wf());
        assert(g[i as int] == bands@[i as int].grid@);
        if !bands[i].grid.is_valid(row, col) {
            return None;
        }
        value.push(bands[i].grid.get(row, col));
        i += 1;
    }
    assert(value@ =~= cell_tuple(g, row as int, col as int));
    Some(value)
}

} // verus!
