//! The first centres of a run.

use crate::band::{cell_tuple, grids, stack_columns, stack_rows, stack_wf, Band};
use crate::centroid::{
    centroid_views, centroids_wf, sample_ok, Centroid, CentroidView, CELL_LIMIT, SAMPLE_LIMIT,
};
use crate::update::{centroid_at, random_between};
use vstd::prelude::*;

verus! {

/// Coordinate `band` of centre `a` of `k` centres along the diagonal, times
/// `k`: the band's minimum plus `a` steps of a `k`-th of its range.
pub open spec fn diagonal_coordinate(bands: Seq<Band>, k: int, a: int, band: int) -> int {
    bands[band].minimum * k + (bands[band].maximum - bands[band].minimum) * a
}

/// Centre `a` of `k` centres spread evenly along the diagonal of the value
/// range.
pub open spec fn diagonal_centroid(bands: Seq<Band>, k: int, a: int) -> CentroidView {
    CentroidView {
        num: Seq::new(bands.len(), |i: int| diagonal_coordinate(bands, k, a, i) as i64),
        den: k,
    }
}

/// A diagonal coordinate stays within the sample limit.
proof fn lemma_diagonal_bound(minimum: int, maximum: int, k: int, a: int)
    requires
        -SAMPLE_LIMIT <= minimum <= maximum <= SAMPLE_LIMIT,
        0 <= a < k <= CELL_LIMIT,
    ensures
        -0x0800_0000_0000_0000 <= minimum * k <= 0x0800_0000_0000_0000,
        0 <= (maximum - minimum) * a <= 0x1000_0000_0000_0000,
        -k * SAMPLE_LIMIT <= minimum * k + (maximum - minimum) * a <= k * SAMPLE_LIMIT,
{
    assert(-0x0800_0000_0000_0000 <= minimum * k <= 0x0800_0000_0000_0000) by (nonlinear_arith)
        requires
            -0x8000_0000 <= minimum <= 0x8000_0000,
            0 <= k <= 0x1000_0000,
    ;
    assert(0 <= (maximum - minimum) * a <= 0x1000_0000_0000_0000) by (nonlinear_arith)
        requires
            0 <= maximum - minimum <= 0x1_0000_0000,
            0 <= a <= 0x1000_0000,
    ;
    assert(minimum * k + (maximum - minimum) * a == minimum * (k - a) + maximum * a)
        by (nonlinear_arith);
    assert(-0x8000_0000 * (k - a) <= minimum * (k - a) <= 0x8000_0000 * (k - a))
        by (nonlinear_arith)
        requires
            -0x8000_0000 <= minimum <= 0x8000_0000,
            0 <= k - a,
    ;
    assert(-0x8000_0000 * a <= maximum * a <= 0x8000_0000 * a) by (nonlinear_arith)
        requires
            -0x8000_0000 <= maximum <= 0x8000_0000,
            0 <= a,
    ;
}

/// `k` centres spread evenly along the diagonal of the value range.
pub fn diagonal_centroids(bands: &Vec<Band>, k: usize) -> (centroids: Vec<Centroid>)
    requires
        stack_wf(bands@),
        1 <= k <= CELL_LIMIT,
    ensures
        centroids@.len() == k,
        centroids_wf(centroid_views(centroids@), bands@.len()),
        forall|a: int|
            0 <= a < k ==> (#[trigger] centroids@[a])@ == diagonal_centroid(bands@, k as int, a),
{
    let mut centroids: Vec<Centroid> = Vec::new();
    let mut a: usize = 0;
    while a < k
        invariant
            a <= k,
            1 <= k <= CELL_LIMIT,
            stack_wf(bands@),
            centroids@.len() == a,
            forall|b: int| 0 <= b < a ==> (#[trigger] centroids@[b])@.wf(bands@.len()),
            forall|b: int|
                0 <= b < a ==> (#[trigger] centroids@[b])@ == diagonal_centroid(
                    bands@,
                    k as int,
                    b,
                ),
        decreases k - a,
    {
        let mut num: Vec<i64> = Vec::new();
        let mut i: usize = 0;
        while i < bands.len()
            invariant
                i <= bands@.len(),
                a < k,
                1 <= k <= CELL_LIMIT,
                stack_wf(bands@),
                num@.len() == i,
                forall|j: int|
                    0 <= j < i ==> #[trigger] num@[j] == diagonal_coordinate(
                        bands@,
                        k as int,
                        a as int,
                        j,
                    ),
                forall|j: int|
                    0 <= j < i ==> -k * SAMPLE_LIMIT <= #[trigger] num@[j] <= k * SAMPLE_LIMIT,
            decreases bands@.len() - i,
        {
            assert(bands@[i as int].wf());
            let minimum: i64 = bands[i].minimum;
            let maximum: i64 = bands[i].maximum;
            proof {
                lemma_diagonal_bound(minimum as int, maximum as int, k as int, a as int);
            }
            let coordinate: i64 = minimum * (k as i64) + (maximum - minimum) * (a as i64);
            num.push(coordinate);
            i += 1;
        }
        let c: Centroid = Centroid { num, den: k as u64 };
        assert(c@.num =~= diagonal_centroid(bands@, k as int, a as int).num);
        centroids.push(c);
        a += 1;
    }
    assert forall|b: int| 0 <= b < k implies (#[trigger] centroid_views(centroids@)[b]).wf(
        bands@.len(),
    ) by {
        assert(centroids@[b]@.wf(bands@.len()));
    }
    centroids
}

/// The centre at the samples of one cell, whether the cell is valid or not.
pub fn centroid_of_cell(bands: &Vec<Band>, row: usize, col: usize) -> (c: Centroid)
    requires
        stack_wf(bands@),
        row < stack_rows(grids(bands@)),
        col < stack_columns(grids(bands@)),
    ensures
        c@.num == cell_tuple(grids(bands@), row as int, col as int),
        c@.den == 1,
        c@.wf(bands@.len()),
{
    let ghost g = grids(bands@);
    let mut values: Vec<i64> = Vec::new();
    let mut i: usize = 0;
    while i < bands.len()
        invariant
            i <= bands@.len(),
            stack_wf(bands@),
            g == grids(bands@),
            row < stack_rows(g),
            col < stack_columns(g),
            values@.len() == i,
            forall|j: int| 0 <= j < i ==> values@[j] == #[trigger] g[j].cells[row as int][col as int],
            forall|j: int| 0 <= j < i ==> sample_ok(#[trigger] values@[j]),
        decreases bands@.len() - i,
    {
        assert(bands@[i as int].wf());
        assert(g[i as int] == bands@[i as int].grid@);
        let v: i64 = bands[i].grid.get(row, col);
        proof {
            if v != bands@[i as int].grid@.nodata {
                assert(bands@[i as int].grid@.valid(row as int, col as int));
            }
        }
        values.push(v);
        i += 1;
    }
    assert(values@ =~= cell_tuple(g, row as int, col as int));
    centroid_at(values)
}

/// Whether `c` is the centre at the samples of some cell.
pub open spec fn at_some_cell(c: CentroidView, bands: Seq<Band>) -> bool {
    exists|row: int, col: int|
        0 <= row < stack_rows(grids(bands)) && 0 <= col < stack_columns(grids(bands)) && c.den == 1
            && c.num == #[trigger] cell_tuple(grids(bands), row, col)
}

/// `k` centres at the samples of cells drawn at random, each cell as likely
/// as any other, the same cell possibly more than once.
pub fn random_centroids(bands: &Vec<Band>, k: usize, rng: &mut rand::StdRng) -> (centroids: Vec<
    Centroid,
>)
    requires
        stack_wf(bands@),
        1 <= stack_rows(grids(bands@)),
        1 <= stack_columns(grids(bands@)),
        stack_rows(grids(bands@)) * stack_columns(grids(bands@)) <= CELL_LIMIT,
    ensures
        centroids@.len() == k,
        centroids_wf(centroid_views(centroids@), bands@.len()),
        forall|a: int| 0 <= a < k ==> at_some_cell((#[trigger] centroids@[a])@, bands@),
{
    let ghost g = grids(bands@);
    assert(bands@[0].wf());
    let rows: usize = bands[0].grid.rows();
    let columns: usize = bands[0].grid.columns();
    proof {
        assert(rows <= CELL_LIMIT && columns <= CELL_LIMIT) by (nonlinear_arith)
            requires
                rows * columns <= CELL_LIMIT,
                rows >= 1,
                columns >= 1,
        ;
    }
    let mut centroids: Vec<Centroid> = Vec::new();
    let mut a: usize = 0;
    while a < k
        invariant
            a <= k,
            stack_wf(bands@),
            g == grids(bands@),
            rows == stack_rows(g),
            columns == stack_columns(g),
            1 <= rows <= CELL_LIMIT,
            1 <= columns <= CELL_LIMIT,
            centroids@.len() == a,
            forall|b: int| 0 <= b < a ==> (#[trigger] centroids@[b])@.wf(bands@.len()),
            forall|b: int| 0 <= b < a ==> at_some_cell((#[trigger] centroids@[b])@, bands@),
        decreases k - a,
    {
        let row: usize = random_between(rng, 0, rows as i64) as usize;
        let col: usize = random_between(rng, 0, columns as i64) as usize;
        let c: Centroid = centroid_of_cell(bands, row, col);
        assert(at_some_cell(c@, bands@)) by {
            assert(c@.num == cell_tuple(grids(bands@), row as int, col as int));
        }
        centroids.push(c);
        a += 1;
    }
    assert forall|b: int| 0 <= b < k implies (#[trigger] centroid_views(centroids@)[b]).wf(
        bands@.len(),
    ) by {
        assert(centroids@[b]@.wf(bands@.len()));
    }
    centroids
}

} // verus!
