//! The assignment step: every valid cell of a row goes to its nearest
//! centre, and the row's per-class statistics are gathered on the way.

use crate::band::{
    cell_tuple, cell_valid, grids, lemma_cell_samples_ok, read_cell, stack_columns, stack_wf, Band,
};
use crate::centroid::{
    centroid_views, centroids_wf, lemma_nearest_among_bounds, nearest, nearest_class, Centroid,
    CentroidView, BAND_LIMIT, CELL_LIMIT,
};
use crate::fold::combine;
use crate::grid::GridView;
use crate::stats::{ClassStats, Stat};
use vstd::prelude::*;

verus! {

/// The class of the cell at `(row, col)` under the centres `cs`, or nothing
/// where the cell is not valid.
pub open spec fn label_at(g: Seq<GridView>, cs: Seq<CentroidView>, row: int, col: int) -> Option<
    int,
> {
    if cell_valid(g, row, col) {
        Some(nearest(cell_tuple(g, row, col), cs))
    } else {
        None
    }
}

/// A stored label as a mathematical one.
pub open spec fn label_view(label: Option<usize>) -> Option<int> {
    match label {
        Some(a) => Some(a as int),
        None => None,
    }
}

/// A statistic of `class` over the first `n` cells of a row.
pub open spec fn row_stat(
    g: Seq<GridView>,
    cs: Seq<CentroidView>,
    row: int,
    class: int,
    s: Stat,
    n: int,
) -> int
    decreases n,
{
    if n <= 0 {
        s.start()
    } else {
        let before = row_stat(g, cs, row, class, s, n - 1);
        if label_at(g, cs, row, n - 1) == Some(class) {
            combine(s.fold(), before, s.term(cell_tuple(g, row, n - 1)))
        } else {
            before
        }
    }
}

/// A class has at most as many cells in a row as the row has.
pub proof fn lemma_row_count_bounds(
    g: Seq<GridView>,
    cs: Seq<CentroidView>,
    row: int,
    class: int,
    n: int,
)
    requires
        0 <= n,
    ensures
        0 <= row_stat(g, cs, row, class, Stat::Count, n) <= n,
    decreases n,
{
    if n > 0 {
        lemma_row_count_bounds(g, cs, row, class, n - 1);
    }
}

/// What one worker hands back for one row: the row's index as a tag, the
/// class of each of its cells, and the statistics of each class in the row.
#[derive(Debug)]
pub struct RowAssignment {
    pub row: usize,
    pub labels: Vec<Option<usize>>,
    pub stats: Vec<ClassStats>,
}

impl RowAssignment {
    /// Whether this is the assignment of row `row` of `g` under `cs`.
    pub open spec fn is_row(&self, g: Seq<GridView>, cs: Seq<CentroidView>, row: int) -> bool {
        &&& self.row == row
        &&& self.labels@.len() == stack_columns(g)
        &&& forall|c: int|
            0 <= c < stack_columns(g) ==> label_view(#[trigger] self.labels@[c]) == label_at(
                g,
                cs,
                row,
                c,
            )
        &&& self.stats@.len() == cs.len()
        &&& forall|a: int| 0 <= a < cs.len() ==> (#[trigger] self.stats@[a]).bounded(g.len())
        &&& forall|a: int, s: Stat|
            0 <= a < cs.len() && s.within(g.len()) ==> #[trigger] self.stats@[a].stat(s)
                == row_stat(g, cs, row, a, s, stack_columns(g) as int)
    }
}

/// A fresh set of per-class statistics.
pub fn empty_stats(classes: usize, bands: usize) -> (stats: Vec<ClassStats>)
    ensures
        stats@.len() == classes,
        forall|a: int| 0 <= a < classes ==> (#[trigger] stats@[a]).bounded(bands as nat),
        forall|a: int, s: Stat|
            0 <= a < classes && s.within(bands as nat) ==> #[trigger] stats@[a].stat(s)
                == s.start(),
{
    let mut stats: Vec<ClassStats> = Vec::new();
    let mut a: usize = 0;
    while a < classes
        invariant
            a <= classes,
            stats@.len() == a,
            forall|b: int| 0 <= b < a ==> (#[trigger] stats@[b]).bounded(bands as nat),
            forall|b: int, s: Stat|
                0 <= b < a && s.within(bands as nat) ==> #[trigger] stats@[b].stat(s) == s.start(),
        decreases classes - a,
    {
        stats.push(ClassStats::empty(bands));
        a += 1;
    }
    stats
}

/// Assigns every valid cell of one row to its nearest centre.
pub fn assign_row(bands: &Vec<Band>, centroids: &Vec<Centroid>, row: usize) -> (result:
    RowAssignment)
    requires
        stack_wf(bands@),
        bands@.len() <= BAND_LIMIT,
        stack_columns(grids(bands@)) <= CELL_LIMIT,
        centroids@.len() >= 1,
        centroids_wf(centroid_views(centroids@), bands@.len()),
    ensures
        result.is_row(grids(bands@), centroid_views(centroids@), row as int),
{
    let ghost g = grids(bands@);
    let ghost cs = centroid_views(centroids@);
    assert(bands@[0].wf());
    let columns: usize = bands[0].grid.columns();
    let classes: usize = centroids.len();
    let mut labels: Vec<Option<usize>> = Vec::new();
    let mut stats: Vec<ClassStats> = empty_stats(classes, bands.len());
    let mut col: usize = 0;
    while col < columns
        invariant
            col <= columns,
            columns == stack_columns(g),
            columns <= CELL_LIMIT,
            classes == cs.len(),
            classes >= 1,
            stack_wf(bands@),
            bands@.len() <= BAND_LIMIT,
            g == grids(bands@),
            g.len() == bands@.len(),
            cs == centroid_views(centroids@),
            centroids_wf(cs, bands@.len()),
            labels@.len() == col,
            forall|c: int|
                0 <= c < col ==> label_view(#[trigger] labels@[c]) == label_at(g, cs, row as int, c),
            stats@.len() == classes,
            forall|a: int| 0 <= a < classes ==> (#[trigger] stats@[a]).bounded(g.len()),
            forall|a: int, s: Stat|
                0 <= a < classes && s.within(g.len()) ==> #[trigger] stats@[a].stat(s) == row_stat(
                    g,
                    cs,
                    row as int,
                    a,
                    s,
                    col as int,
                ),
        decreases columns - col,
    {
        let cell: Option<Vec<i64>> = read_cell(bands, row, col);
        let ghost before = stats@;
        match cell {
            Some(value) => {
                proof {
                    lemma_cell_samples_ok(bands@, row as int, col as int);
                    lemma_nearest_among_bounds(value@, cs, cs.len() as int);
                }
                let class: usize = nearest_class(&value, centroids);
                proof {
                    assert(before[class as int].stat(Stat::Count) == row_stat(
                        g,
                        cs,
                        row as int,
                        class as int,
                        Stat::Count,
                        col as int,
                    ));
                    lemma_row_count_bounds(g, cs, row as int, class as int, col as int);
                    assert(before[class as int].bounded(g.len()));
                }
                stats[class].add_cell(&value);
                labels.push(Some(class));
                assert(label_at(g, cs, row as int, col as int) == Some(class as int));
                assert forall|a: int, s: Stat|
                    0 <= a < classes && s.within(g.len()) implies #[trigger] stats@[a].stat(s)
                    == row_stat(g, cs, row as int, a, s, col + 1) by {
                    assert(before[a].stat(s) == row_stat(g, cs, row as int, a, s, col as int));
                    if a == class {
                    } else {
                        assert(stats@[a] == before[a]);
                    }
                }
                assert forall|a: int| 0 <= a < classes implies (#[trigger] stats@[a]).bounded(
                    g.len(),
                ) by {
                    if a != class {
                        assert(stats@[a] == before[a]);
                    }
                }
            },
            None => {
                labels.push(None);
                assert(label_at(g, cs, row as int, col as int) is None);
                assert forall|a: int, s: Stat|
                    0 <= a < classes && s.within(g.len()) implies #[trigger] stats@[a].stat(s)
                    == row_stat(g, cs, row as int, a, s, col + 1) by {
                    assert(before[a].stat(s) == row_stat(g, cs, row as int, a, s, col as int));
                }
            },
        }
        col += 1;
    }
    RowAssignment { row, labels, stats }
}

} // verus!
