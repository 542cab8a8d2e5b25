//! One assignment step over a whole stack of bands: the rows are shared out
//! over the workers, each row is assigned, and the results are gathered.

use crate::aggregate::{labels_view, lemma_row_changes_bounds, row_changes, Aggregator};
use crate::assign::{assign_row, label_at, lemma_row_count_bounds, row_stat, RowAssignment};
use crate::band::{grids, stack_columns, stack_rows, stack_wf, Band};
use crate::centroid::{centroid_views, centroids_wf, Centroid, CentroidView, BAND_LIMIT, CELL_LIMIT};
use crate::dispatch::{is_share, lemma_every_row_owned, listed, owner, worker_rows, Partition};
use crate::fold::{
    combine, fold_all, lemma_fold_none, lemma_mark_row, lemma_sum_bounds, masked_fold, Fold,
};
use crate::grid::GridView;
use crate::stats::Stat;
use vstd::prelude::*;

verus! {

/// A stack that the classifier can hold: not too many bands, not too many
/// cells.
pub open spec fn stack_fits(g: Seq<GridView>) -> bool {
    g.len() <= BAND_LIMIT && stack_rows(g) * stack_columns(g) <= CELL_LIMIT
}

/// Per row, a statistic of `class` under the centres `cs`.
pub open spec fn row_values(g: Seq<GridView>, cs: Seq<CentroidView>, class: int, s: Stat) -> Seq<
    int,
> {
    Seq::new(stack_rows(g), |r: int| row_stat(g, cs, r, class, s, stack_columns(g) as int))
}

/// A statistic of `class` over all cells under the centres `cs`.
pub open spec fn total_stat(g: Seq<GridView>, cs: Seq<CentroidView>, class: int, s: Stat) -> int {
    fold_all(s.fold(), s.start(), row_values(g, cs, class, s))
}

/// The labels of a row under the centres `cs`.
pub open spec fn label_row(g: Seq<GridView>, cs: Seq<CentroidView>, row: int) -> Seq<Option<int>> {
    Seq::new(stack_columns(g), |c: int| label_at(g, cs, row, c))
}

/// Per row, the number of cells whose class under `cs` is not their class in
/// `before`.
pub open spec fn change_values(
    g: Seq<GridView>,
    cs: Seq<CentroidView>,
    before: Seq<Vec<Option<usize>>>,
) -> Seq<int> {
    Seq::new(
        stack_rows(g),
        |r: int| row_changes(labels_view(before[r]@), label_row(g, cs, r), stack_columns(g) as int),
    )
}

/// The number of valid cells whose class under `cs` is not their class in
/// `before`.
pub open spec fn changed_cells(
    g: Seq<GridView>,
    cs: Seq<CentroidView>,
    before: Seq<Vec<Option<usize>>>,
) -> int {
    fold_all(Fold::Add, 0, change_values(g, cs, before))
}

/// A label grid of the given extent.
pub open spec fn labels_shaped(labels: Seq<Vec<Option<usize>>>, rows: nat, columns: nat) -> bool {
    &&& labels.len() == rows
    &&& forall|r: int| 0 <= r < rows ==> (#[trigger] labels[r])@.len() == columns
}

/// A label grid in which every cell has its class under `cs`, and invalid
/// cells none.
pub open spec fn labels_are(
    labels: Seq<Vec<Option<usize>>>,
    g: Seq<GridView>,
    cs: Seq<CentroidView>,
) -> bool {
    &&& labels_shaped(labels, stack_rows(g), stack_columns(g))
    &&& forall|r: int|
        0 <= r < stack_rows(g) ==> labels_view((#[trigger] labels[r])@) == label_row(g, cs, r)
}

/// What holds of the aggregator and the label grid while rows come in: the
/// rows received carry their new labels, the others their old ones, and the
/// totals are those of the rows received.
pub open spec fn gathered(
    agg: Aggregator,
    labels: Seq<Vec<Option<usize>>>,
    before: Seq<Vec<Option<usize>>>,
    g: Seq<GridView>,
    cs: Seq<CentroidView>,
) -> bool {
    &&& agg.shaped(cs.len(), g.len(), stack_rows(g))
    &&& labels_shaped(labels, stack_rows(g), stack_columns(g))
    &&& forall|r: int|
        0 <= r < stack_rows(g) && agg.received@[r] ==> labels_view((#[trigger] labels[r])@)
            == label_row(g, cs, r)
    &&& forall|r: int|
        0 <= r < stack_rows(g) && !agg.received@[r] ==> (#[trigger] labels[r]) == before[r]
    &&& forall|a: int, s: Stat|
        0 <= a < cs.len() && s.within(g.len()) ==> #[trigger] agg.stats@[a].stat(s) == masked_fold(
            s.fold(),
            s.start(),
            row_values(g, cs, a, s),
            agg.received@,
            stack_rows(g) as int,
        )
    &&& agg.changed == masked_fold(
        Fold::Add,
        0,
        change_values(g, cs, before),
        agg.received@,
        stack_rows(g) as int,
    )
}

/// The counts gathered so far, and the changes, stay within the number of
/// cells.
proof fn lemma_gathered_fits(
    g: Seq<GridView>,
    cs: Seq<CentroidView>,
    before: Seq<Vec<Option<usize>>>,
    done: Seq<bool>,
    class: int,
)
    requires
        done.len() == stack_rows(g),
    ensures
        0 <= masked_fold(
            Fold::Add,
            0,
            row_values(g, cs, class, Stat::Count),
            done,
            stack_rows(g) as int,
        ) <= stack_rows(g) * stack_columns(g),
        0 <= masked_fold(Fold::Add, 0, change_values(g, cs, before), done, stack_rows(g) as int)
            <= stack_rows(g) * stack_columns(g),
{
    let rows = stack_rows(g) as int;
    let columns = stack_columns(g) as int;
    let counts = row_values(g, cs, class, Stat::Count);
    let changes = change_values(g, cs, before);
    assert forall|r: int| 0 <= r < rows implies 0 <= #[trigger] counts[r] <= columns by {
        lemma_row_count_bounds(g, cs, r, class, columns);
    }
    assert forall|r: int| 0 <= r < rows implies 0 <= #[trigger] changes[r] <= columns by {
        lemma_row_changes_bounds(labels_view(before[r]@), label_row(g, cs, r), columns);
    }
    lemma_sum_bounds(counts, done, rows, 0, columns);
    lemma_sum_bounds(changes, done, rows, 0, columns);
    assert(rows * 0 == 0) by (nonlinear_arith);
}

/// Taking the result of a row that was not received keeps what was gathered
/// in step with the rows received.
proof fn lemma_accept_gathers(
    old_agg: Aggregator,
    new_agg: Aggregator,
    old_labels: Seq<Vec<Option<usize>>>,
    new_labels: Seq<Vec<Option<usize>>>,
    before: Seq<Vec<Option<usize>>>,
    g: Seq<GridView>,
    cs: Seq<CentroidView>,
    result: RowAssignment,
)
    requires
        gathered(old_agg, old_labels, before, g, cs),
        result.is_row(g, cs, result.row as int),
        result.row < stack_rows(g),
        !old_agg.received@[result.row as int],
        new_agg.shaped(cs.len(), g.len(), stack_rows(g)),
        new_agg.received@ == old_agg.received@.update(result.row as int, true),
        new_labels == old_labels.update(result.row as int, result.labels),
        new_agg.changed == old_agg.changed + row_changes(
            labels_view(old_labels[result.row as int]@),
            labels_view(result.labels@),
            result.labels@.len() as int,
        ),
        forall|a: int, s: Stat|
            0 <= a < cs.len() && s.within(g.len()) ==> #[trigger] new_agg.stats@[a].stat(s)
                == combine(s.fold(), old_agg.stats@[a].stat(s), result.stats@[a].stat(s)),
    ensures
        gathered(new_agg, new_labels, before, g, cs),
{
    let rows = stack_rows(g) as int;
    let row = result.row as int;
    assert(labels_view(result.labels@) =~= label_row(g, cs, row));
    assert forall|a: int, s: Stat|
        0 <= a < cs.len() && s.within(g.len()) implies #[trigger] new_agg.stats@[a].stat(s)
        == masked_fold(s.fold(), s.start(), row_values(g, cs, a, s), new_agg.received@, rows) by {
        lemma_mark_row(
            s.fold(),
            s.start(),
            row_values(g, cs, a, s),
            old_agg.received@,
            row,
            rows,
        );
        assert(old_agg.stats@[a].stat(s) == masked_fold(
            s.fold(),
            s.start(),
            row_values(g, cs, a, s),
            old_agg.received@,
            rows,
        ));
        assert(result.stats@[a].stat(s) == row_values(g, cs, a, s)[row]);
    }
    lemma_mark_row(Fold::Add, 0, change_values(g, cs, before), old_agg.received@, row, rows);
    assert(old_labels[row] == before[row]);
    assert forall|r: int| 0 <= r < rows && new_agg.received@[r] implies labels_view(
        (#[trigger] new_labels[r])@,
    ) == label_row(g, cs, r) by {
        if r != row {
            assert(old_agg.received@[r]);
            assert(new_labels[r] == old_labels[r]);
        }
    }
    assert forall|r: int| 0 <= r < rows && !new_agg.received@[r] implies (
    #[trigger] new_labels[r]) == before[r] by {
        assert(r != row);
        assert(!old_agg.received@[r]);
        assert(new_labels[r] == old_labels[r]);
    }
    assert forall|r: int| 0 <= r < rows implies (#[trigger] new_labels[r])@.len() == stack_columns(
        g,
    ) by {
        if r != row {
            assert(new_labels[r] == old_labels[r]);
        }
    }
}

/// Whether `row` has been handled when the workers before `worker` are done
/// and `worker` has handled the first `j` rows of its share.
pub open spec fn handled(
    scheme: Partition,
    rows: int,
    workers: int,
    worker: int,
    share: Seq<usize>,
    j: int,
    row: int,
) -> bool {
    owner(scheme, rows, workers, row) < worker || (owner(scheme, rows, workers, row) == worker
        && exists|i: int| 0 <= i < j && share[i] == row)
}

/// Runs one assignment step: every valid cell gets the class of its nearest
/// centre, the label grid is overwritten, and the statistics of every class
/// and the number of cells that changed class are returned. The rows are
/// handled worker by worker, each worker taking the rows that the scheme
/// gives it; the outcome depends neither on the scheme nor on the number of
/// workers.
pub fn assignment_step(
    bands: &Vec<Band>,
    centroids: &Vec<Centroid>,
    labels: &mut Vec<Vec<Option<usize>>>,
    scheme: Partition,
    workers: usize,
) -> (agg: Aggregator)
    requires
        stack_wf(bands@),
        stack_fits(grids(bands@)),
        centroids@.len() >= 1,
        centroids_wf(centroid_views(centroids@), bands@.len()),
        workers >= 1,
        labels_shaped(
            old(labels)@,
            stack_rows(grids(bands@)),
            stack_columns(grids(bands@)),
        ),
    ensures
        labels_are(final(labels)@, grids(bands@), centroid_views(centroids@)),
        agg.shaped(centroids@.len(), bands@.len(), stack_rows(grids(bands@))),
        forall|a: int, s: Stat|
            0 <= a < centroids@.len() && s.within(bands@.len()) ==> #[trigger] agg.stats@[a].stat(s)
                == total_stat(grids(bands@), centroid_views(centroids@), a, s),
        agg.changed == changed_cells(grids(bands@), centroid_views(centroids@), old(labels)@),
        agg.changed <= CELL_LIMIT,
{
    let ghost g = grids(bands@);
    let ghost cs = centroid_views(centroids@);
    let ghost before = labels@;
    assert(bands@[0].wf());
    let rows: usize = bands[0].grid.rows();
    let mut agg: Aggregator = Aggregator::new(centroids.len(), bands.len(), rows);
    proof {
        assert forall|a: int, s: Stat|
            0 <= a < cs.len() && s.within(g.len()) implies #[trigger] agg.stats@[a].stat(s)
            == masked_fold(
            s.fold(),
            s.start(),
            row_values(g, cs, a, s),
            agg.received@,
            rows as int,
        ) by {
            lemma_fold_none(s.fold(), s.start(), row_values(g, cs, a, s), agg.received@, rows as int);
        }
        lemma_fold_none(Fold::Add, 0, change_values(g, cs, before), agg.received@, rows as int);
        assert forall|r: int| 0 <= r < rows implies agg.received@[r] == handled(
            scheme,
            rows as int,
            workers as int,
            0,
            Seq::<usize>::empty(),
            0,
            r,
        ) by {
            lemma_every_row_owned(scheme, rows as int, workers as int, r);
        }
    }
    let mut t: usize = 0;
    while t < workers
        invariant
            t <= workers,
            workers >= 1,
            stack_wf(bands@),
            stack_fits(g),
            g == grids(bands@),
            cs == centroid_views(centroids@),
            centroids@.len() >= 1,
            centroids_wf(cs, bands@.len()),
            rows == stack_rows(g),
            gathered(agg, labels@, before, g, cs),
            forall|r: int|
                0 <= r < rows ==> #[trigger] agg.received@[r] == (owner(
                    scheme,
                    rows as int,
                    workers as int,
                    r,
                ) < t),
        decreases workers - t,
    {
        let share: Vec<usize> = worker_rows(scheme, rows, workers, t);
        let mut j: usize = 0;
        while j < share.len()
            invariant
                j <= share@.len(),
                t < workers,
                stack_wf(bands@),
                stack_fits(g),
                g == grids(bands@),
                cs == centroid_views(centroids@),
                centroids@.len() >= 1,
                centroids_wf(cs, bands@.len()),
                rows == stack_rows(g),
                is_share(share@, scheme, rows as int, workers as int, t as int),
                gathered(agg, labels@, before, g, cs),
                forall|r: int|
                    0 <= r < rows ==> #[trigger] agg.received@[r] == handled(
                        scheme,
                        rows as int,
                        workers as int,
                        t as int,
                        share@,
                        j as int,
                        r,
                    ),
            decreases share@.len() - j,
        {
            let row: usize = share[j];
            proof {
                assert(rows * stack_columns(g) <= CELL_LIMIT);
                assert(stack_columns(g) <= CELL_LIMIT) by (nonlinear_arith)
                    requires
                        rows * stack_columns(g) <= CELL_LIMIT,
                        rows >= 1,
                        stack_columns(g) >= 0,
                ;
            }
            let result: RowAssignment = assign_row(bands, centroids, row);
            let ghost old_agg = agg;
            let ghost old_labels = labels@;
            proof {
                assert(!agg.received@[row as int]) by {
                    if handled(
                        scheme,
                        rows as int,
                        workers as int,
                        t as int,
                        share@,
                        j as int,
                        row as int,
                    ) {
                        let i = choose|i: int| 0 <= i < j && share@[i] == row;
                        assert(share@[i] < share@[j as int]);
                    }
                }
                assert forall|a: int| 0 <= a < result.stats@.len() implies agg.stats@[a].count + (
                #[trigger] result.stats@[a]).count <= CELL_LIMIT by {
                    let vals = row_values(g, cs, a, Stat::Count);
                    lemma_mark_row(Fold::Add, 0, vals, agg.received@, row as int, rows as int);
                    lemma_gathered_fits(g, cs, before, agg.received@.update(row as int, true), a);
                    assert(agg.stats@[a].stat(Stat::Count) == masked_fold(
                        Fold::Add,
                        0,
                        vals,
                        agg.received@,
                        rows as int,
                    ));
                    assert(result.stats@[a].stat(Stat::Count) == vals[row as int]);
                }
                lemma_gathered_fits(g, cs, before, agg.received@, 0);
            }
            let taken: bool = agg.accept(labels, bands.len(), result);
            proof {
                assert(taken);
                lemma_accept_gathers(old_agg, agg, old_labels, labels@, before, g, cs, result);
                assert forall|r: int| 0 <= r < rows implies #[trigger] agg.received@[r] == handled(
                    scheme,
                    rows as int,
                    workers as int,
                    t as int,
                    share@,
                    j + 1,
                    r,
                ) by {
                    let was = handled(
                        scheme,
                        rows as int,
                        workers as int,
                        t as int,
                        share@,
                        j as int,
                        r,
                    );
                    assert(old_agg.received@[r] == was);
                    if r == row {
                        assert(share@[j as int] == r);
                    } else if was {
                        if owner(scheme, rows as int, workers as int, r) == t {
                            let i = choose|i: int| 0 <= i < j && share@[i] == r;
                            assert(0 <= i < j + 1 && share@[i] == r);
                        }
                    } else {
                        if owner(scheme, rows as int, workers as int, r) == t {
                            if exists|i: int| 0 <= i < j + 1 && share@[i] == r {
                                let i = choose|i: int| 0 <= i < j + 1 && share@[i] == r;
                                assert(i < j);
                            }
                        }
                    }
                }
            }
            j += 1;
        }
        proof {
            assert forall|r: int| 0 <= r < rows implies #[trigger] agg.received@[r] == (owner(
                scheme,
                rows as int,
                workers as int,
                r,
            ) < t + 1) by {
                if owner(scheme, rows as int, workers as int, r) == t {
                    assert(listed(share@, r));
                    let i = choose|i: int| 0 <= i < share@.len() && share@[i] == r;
                    assert(0 <= i < j && share@[i] == r);
                }
            }
        }
        t += 1;
        proof {
            assert forall|r: int| 0 <= r < rows implies #[trigger] agg.received@[r] == handled(
                scheme,
                rows as int,
                workers as int,
                t as int,
                Seq::<usize>::empty(),
                0,
                r,
            ) by {}
        }
    }
    proof {
        assert forall|r: int| 0 <= r < rows implies #[trigger] agg.received@[r] by {
            lemma_every_row_owned(scheme, rows as int, workers as int, r);
        }
        assert(agg.received@ =~= Seq::new(rows as nat, |r: int| true));
        assert forall|a: int, s: Stat|
            0 <= a < centroids@.len() && s.within(bands@.len()) implies #[trigger] agg.stats@[a].stat(
            s,
        ) == total_stat(g, cs, a, s) by {
            assert(row_values(g, cs, a, s).len() == rows);
        }
        assert(change_values(g, cs, before).len() == rows);
        lemma_gathered_fits(g, cs, before, agg.received@, 0);
    }
    agg
}

} // verus!
