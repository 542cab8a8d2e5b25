//! The clustering engine: a run starts from the first centres, then
//! alternates an assignment step and a centroid update until few enough
//! cells change class or the iteration budget is used up.

use crate::aggregate::{labels_view, Aggregator};
use crate::assign::{label_at, label_view};
use crate::band::{cell_tuple, cell_valid, grids, stack_columns, stack_rows, stack_wf, Band};
use crate::census::{class_counts, lemma_class_sizes_sum_to_valid_cells, valid_count};
use crate::centroid::{
    centroid_views, centroids_wf, lemma_nearest_among_bounds, Centroid, CentroidView, CELL_LIMIT,
};
use crate::config::{check_extents, ConfigError, InitMode, KMeansClustering, Percent};
use crate::dispatch::{available_workers, Partition};
use crate::fold::seq_sum;
use crate::grid::{Grid, GridView};
use crate::init::{at_some_cell, diagonal_centroid, diagonal_centroids, random_centroids};
use crate::ratio::fraction_less;
use crate::stats::Stat;
use crate::step::{assignment_step, changed_cells, label_row, labels_are, labels_shaped, total_stat};
use crate::update::{reseeded, update_centroids, within_range};
use vstd::prelude::*;

verus! {

/// Where a run stands.
#[derive(Clone, Copy, Debug, PartialEq, Eq, Structural)]
pub enum Phase {
    /// More iterations are due.
    Iterating,
    /// Fewer cells than the threshold changed class in the last iteration.
    Converged,
    /// The iteration budget is used up.
    Exhausted,
}

/// Whether few enough cells changed: `100 * changed / valid` percent is
/// strictly below the threshold. With no valid cell this never holds.
pub open spec fn converged(changed: int, valid: int, threshold: Percent) -> bool {
    100 * changed * threshold.den < threshold.num * valid
}

/// Class sizes as mathematical integers.
pub open spec fn counts_view(class_n: Seq<u64>) -> Seq<int> {
    Seq::new(class_n.len(), |a: int| class_n[a] as int)
}

/// Whether `c` is the mean of the cells that `prev` assigns to class `a`.
pub open spec fn is_mean(
    c: CentroidView,
    g: Seq<GridView>,
    prev: Seq<CentroidView>,
    a: int,
) -> bool {
    &&& c.den == total_stat(g, prev, a, Stat::Count)
    &&& c.num.len() == g.len()
    &&& forall|i: int|
        0 <= i < g.len() ==> #[trigger] c.num[i] == total_stat(g, prev, a, Stat::Sum(i))
}

/// Whether `c` is a point within the range of the cells that `prev` assigns
/// to class `d`.
pub open spec fn drawn_from(
    c: CentroidView,
    g: Seq<GridView>,
    prev: Seq<CentroidView>,
    d: int,
) -> bool {
    &&& c.den == 1
    &&& c.num.len() == g.len()
    &&& forall|i: int|
        0 <= i < g.len() ==> total_stat(g, prev, d, Stat::Least(i)) <= #[trigger] c.num[i]
            <= total_stat(g, prev, d, Stat::Greatest(i))
}

/// What an update makes of the centre of class `a`: the mean of its members
/// where it has at least `min_class_size` of them and at least one; itself
/// where it has none and needs none; otherwise itself, or a point within the
/// range of a class with more than twice `min_class_size` members.
pub open spec fn moved_class(
    c: CentroidView,
    g: Seq<GridView>,
    prev: Seq<CentroidView>,
    min_class_size: int,
    a: int,
) -> bool {
    let n = total_stat(g, prev, a, Stat::Count);
    if n >= min_class_size && n >= 1 {
        is_mean(c, g, prev, a)
    } else if n >= min_class_size {
        c == prev[a]
    } else {
        c == prev[a] || exists|d: int|
            0 <= d < prev.len() && total_stat(g, prev, d, Stat::Count) > 2 * min_class_size
                && #[trigger] drawn_from(c, g, prev, d)
    }
}

/// Whether `next` is what an update makes of the centres `prev`.
pub open spec fn moved(
    next: Seq<CentroidView>,
    g: Seq<GridView>,
    prev: Seq<CentroidView>,
    min_class_size: int,
) -> bool {
    &&& next.len() == prev.len()
    &&& forall|a: int|
        0 <= a < prev.len() ==> moved_class(#[trigger] next[a], g, prev, min_class_size, a)
}

/// The state of a run.
#[derive(Debug)]
pub struct KMeansState {
    /// The centres after the last update.
    pub centroids: Vec<Centroid>,
    /// The centres that the labels were assigned from.
    pub assigned_from: Vec<Centroid>,
    /// The class of every cell; invalid cells have none.
    pub labels: Vec<Vec<Option<usize>>>,
    /// The size of every class.
    pub class_n: Vec<u64>,
    /// The number of valid cells.
    pub valid_cells: u64,
    /// The number of cells that changed class in the last iteration.
    pub changed_cells: u64,
    /// The number of iterations done.
    pub iterations: usize,
    /// Where the run stands.
    pub phase: Phase,
}

impl KMeansState {
    /// What holds once an iteration is done: the labels and class sizes are
    /// those of the centres they were assigned from, the class sizes add up
    /// to the number of valid cells, the centres are the update of those
    /// assigned from, and the phase follows the stopping rule.
    pub open spec fn settled(&self, config: KMeansClustering, bands: Seq<Band>) -> bool {
        let g = grids(bands);
        let prev = centroid_views(self.assigned_from@);
        let k = config.num_classes as int;
        let stop = converged(
            self.changed_cells as int,
            self.valid_cells as int,
            config.class_change,
        );
        &&& prev.len() == k
        &&& centroids_wf(prev, g.len())
        &&& labels_are(self.labels@, g, prev)
        &&& self.class_n@.len() == k
        &&& forall|a: int|
            0 <= a < k ==> #[trigger] self.class_n@[a] == total_stat(g, prev, a, Stat::Count)
        &&& self.valid_cells == valid_count(g)
        &&& seq_sum(counts_view(self.class_n@), k) == self.valid_cells
        &&& moved(centroid_views(self.centroids@), g, prev, config.min_class_size as int)
        &&& (self.phase is Converged <==> stop)
        &&& (self.phase is Exhausted <==> !stop && self.iterations == config.max_iterations)
    }

    /// The invariant of a run.
    pub open spec fn wf(&self, config: KMeansClustering, bands: Seq<Band>) -> bool {
        let g = grids(bands);
        &&& self.centroids@.len() == config.num_classes
        &&& centroids_wf(centroid_views(self.centroids@), g.len())
        &&& labels_shaped(self.labels@, stack_rows(g), stack_columns(g))
        &&& labels_below(self.labels@, config.num_classes as int)
        &&& self.iterations <= config.max_iterations
        &&& (self.phase is Iterating ==> self.iterations < config.max_iterations)
        &&& (self.iterations == 0 ==> self.phase is Iterating)
        &&& (self.iterations >= 1 ==> self.settled(config, bands))
    }

    /// What holds in the middle of an iteration, when every row has been
    /// assigned from the current centres and gathered in `agg`: the labels
    /// and the totals are those of the current centres, and the iteration
    /// budget is not used up.
    pub open spec fn assigned(
        &self,
        agg: Aggregator,
        config: KMeansClustering,
        bands: Seq<Band>,
    ) -> bool {
        let g = grids(bands);
        let cs = centroid_views(self.centroids@);
        &&& self.centroids@.len() == config.num_classes
        &&& centroids_wf(cs, g.len())
        &&& labels_are(self.labels@, g, cs)
        &&& agg.shaped(cs.len(), g.len(), stack_rows(g))
        &&& forall|a: int, s: Stat|
            0 <= a < cs.len() && s.within(g.len()) ==> #[trigger] agg.stats@[a].stat(s)
                == total_stat(g, cs, a, s)
        &&& self.iterations < config.max_iterations
        &&& (self.iterations >= 1 ==> self.valid_cells == valid_count(g))
    }

    /// The labels as a grid: class `a` is written as `a + 1`, and cells
    /// without a class hold `nodata`.
    pub fn label_grid(&self, nodata: i64) -> (grid: Grid)
        requires
            exists|columns: nat| labels_shaped(self.labels@, self.labels@.len(), columns),
            labels_below(self.labels@, self.centroids@.len() as int),
            self.centroids@.len() <= CELL_LIMIT,
        ensures
            grid.wf(),
            grid@.wf(),
            grid@.nodata == nodata,
            labels_shaped(self.labels@, grid@.rows, grid@.columns) || (self.labels@.len() == 0
                && grid@.rows == 0 && grid@.columns == 0),
            forall|r: int, c: int|
                0 <= r < grid@.rows && 0 <= c < grid@.columns ==> #[trigger] grid@.cells[r][c]
                    == match self.labels@[r]@[c] {
                    Some(a) => (a + 1) as i64,
                    None => nodata,
                },
    {
        let rows: usize = self.labels.len();
        let columns: usize = if rows == 0 {
            0
        } else {
            self.labels[0].len()
        };
        proof {
            let cols = choose|columns: nat| labels_shaped(self.labels@, self.labels@.len(), columns);
            assert(labels_shaped(self.labels@, self.labels@.len(), cols));
            if rows > 0 {
                assert(self.labels@[0]@.len() == cols);
            }
        }
        let mut grid: Grid = Grid::new(rows, columns, nodata, nodata);
        let mut r: usize = 0;
        while r < rows
            invariant
                r <= rows,
                rows == self.labels@.len(),
                rows > 0 ==> labels_shaped(self.labels@, rows as nat, columns as nat),
                labels_below(self.labels@, self.centroids@.len() as int),
                self.centroids@.len() <= CELL_LIMIT,
                grid.wf(),
                grid@.wf(),
                grid@.nodata == nodata,
                grid@.rows == rows,
                grid@.columns == columns,
                forall|i: int, c: int|
                    0 <= i < r && 0 <= c < columns ==> #[trigger] grid@.cells[i][c]
                        == match self.labels@[i]@[c] {
                        Some(a) => (a + 1) as i64,
                        None => nodata,
                    },
            decreases rows - r,
        {
            let mut line: Vec<i64> = Vec::new();
            let mut c: usize = 0;
            assert(self.labels@[r as int]@.len() == columns);
            while c < columns
                invariant
                    c <= columns,
                    r < rows,
                    rows == self.labels@.len(),
                    self.labels@[r as int]@.len() == columns,
                    labels_below(self.labels@, self.centroids@.len() as int),
                self.centroids@.len() <= CELL_LIMIT,
                    line@.len() == c,
                    forall|j: int|
                        0 <= j < c ==> #[trigger] line@[j] == match self.labels@[r as int]@[j] {
                            Some(a) => (a + 1) as i64,
                            None => nodata,
                        },
                decreases columns - c,
            {
                let label: Option<usize> = self.labels[r][c];
                assert(label_below(self.labels@[r as int]@[c as int], self.centroids@.len() as int));
                let v: i64 = match label {
                    Some(a) => (a + 1) as i64,
                    None => nodata,
                };
                line.push(v);
                c += 1;
            }
            let ghost before = grid@;
            grid.set_row_data(r, line);
            assert forall|i: int, c: int|
                0 <= i < r + 1 && 0 <= c < columns implies #[trigger] grid@.cells[i][c]
                == match self.labels@[i]@[c] {
                Some(a) => (a + 1) as i64,
                None => nodata,
            } by {
                if i < r {
                    assert(grid@.cells[i] == before.cells[i]);
                }
            }
            r += 1;
        }
        grid
    }
}

/// Whether a label, if there is one, is below `bound`.
pub open spec fn label_below(label: Option<usize>, bound: int) -> bool {
    match label {
        Some(a) => a < bound,
        None => true,
    }
}

/// Whether every label of a grid is below `bound`.
pub open spec fn labels_below(labels: Seq<Vec<Option<usize>>>, bound: int) -> bool {
    forall|r: int, c: int|
        0 <= r < labels.len() && 0 <= c < labels[r]@.len() ==> label_below(
            #[trigger] labels[r]@[c],
            bound,
        )
}

/// Labels assigned from `k` centres are below `k`.
pub proof fn lemma_labels_below(
    labels: Seq<Vec<Option<usize>>>,
    g: Seq<GridView>,
    cs: Seq<CentroidView>,
)
    requires
        labels_are(labels, g, cs),
        cs.len() >= 1,
    ensures
        labels_below(labels, cs.len() as int),
{
    assert forall|r: int, c: int|
        0 <= r < labels.len() && 0 <= c < labels[r]@.len() implies label_below(
        #[trigger] labels[r]@[c],
        cs.len() as int,
    ) by {
        assert(labels_view(labels[r]@) == label_row(g, cs, r));
        assert(labels_view(labels[r]@)[c] == label_view(labels[r]@[c]));
        assert(label_row(g, cs, r)[c] == label_at(g, cs, r, c));
        if cell_valid(g, r, c) {
            lemma_nearest_among_bounds(cell_tuple(g, r, c), cs, cs.len() as int);
        }
    }
}

/// A copy of a list of centres.
pub fn copy_centroids(centroids: &Vec<Centroid>) -> (copy: Vec<Centroid>)
    ensures
        centroid_views(copy@) == centroid_views(centroids@),
{
    let mut copy: Vec<Centroid> = Vec::new();
    let mut a: usize = 0;
    while a < centroids.len()
        invariant
            a <= centroids@.len(),
            copy@.len() == a,
            forall|b: int| 0 <= b < a ==> (#[trigger] copy@[b])@ == centroids@[b]@,
        decreases centroids@.len() - a,
    {
        let mut num: Vec<i64> = Vec::new();
        let mut i: usize = 0;
        while i < centroids[a].num.len()
            invariant
                a < centroids@.len(),
                i <= centroids@[a as int].num@.len(),
                num@.len() == i,
                forall|j: int| 0 <= j < i ==> num@[j] == centroids@[a as int].num@[j],
            decreases centroids@[a as int].num@.len() - i,
        {
            num.push(centroids[a].num[i]);
            i += 1;
        }
        assert(num@ =~= centroids@[a as int].num@);
        copy.push(Centroid { num, den: centroids[a].den });
        a += 1;
    }
    assert(centroid_views(copy@) =~= centroid_views(centroids@));
    copy
}

/// Whether few enough cells changed for the run to stop.
pub fn has_converged(changed: u64, valid: u64, threshold: Percent) -> (stop: bool)
    ensures
        stop == converged(changed as int, valid as int, threshold),
{
    if valid == 0 {
        assert(threshold.num * valid == 0) by (nonlinear_arith)
            requires
                valid == 0,
        ;
        assert(0 <= 100 * changed * threshold.den) by (nonlinear_arith)
            requires
                0 <= changed,
                0 <= threshold.den,
        ;
        return false;
    }
    if threshold.den == 0 {
        assert(100 * changed * threshold.den == 0) by (nonlinear_arith)
            requires
                threshold.den == 0,
        ;
        assert((0 < threshold.num * valid) == (threshold.num > 0)) by (nonlinear_arith)
            requires
                valid > 0,
                threshold.num >= 0,
        ;
        return threshold.num > 0;
    }
    let scaled: u128 = 100 * (changed as u128);
    fraction_less(scaled, valid as u128, threshold.num as u128, threshold.den as u128)
}

impl KMeansClustering {
    /// Whether `state` is a run that has just been set up: no iteration
    /// done, no cell with a class, and the centres chosen as the
    /// configuration says.
    pub open spec fn starts(&self, bands: Seq<Band>, state: KMeansState) -> bool {
        &&& state.wf(*self, bands)
        &&& state.iterations == 0
        &&& forall|r: int, c: int|
            0 <= r < state.labels@.len() && 0 <= c < state.labels@[r]@.len()
                ==> #[trigger] state.labels@[r]@[c] is None
        &&& self.initialize == InitMode::Diagonal ==> forall|a: int|
            0 <= a < self.num_classes ==> (#[trigger] state.centroids@[a])@ == diagonal_centroid(
                bands,
                self.num_classes as int,
                a,
            )
        &&& self.initialize == InitMode::Random ==> forall|a: int|
            0 <= a < self.num_classes ==> at_some_cell((#[trigger] state.centroids@[a])@, bands)
    }

    /// Whether `after` is what one iteration makes of `before`: the labels
    /// are assigned from the centres of `before`, the cells that changed
    /// class are counted against the labels of `before`, and the centres,
    /// the class sizes and the phase are as the invariant of a run says.
    pub open spec fn follows(
        &self,
        bands: Seq<Band>,
        before: KMeansState,
        after: KMeansState,
    ) -> bool {
        &&& before.phase is Iterating
        &&& after.wf(*self, bands)
        &&& after.iterations == before.iterations + 1
        &&& centroid_views(after.assigned_from@) == centroid_views(before.centroids@)
        &&& after.changed_cells == changed_cells(
            grids(bands),
            centroid_views(before.centroids@),
            before.labels@,
        )
    }

    /// Whether `trace` is a whole run: it starts from a run just set up,
    /// each state follows from the one before, and only the last state has
    /// left the iterating phase.
    pub open spec fn is_run(&self, bands: Seq<Band>, trace: Seq<KMeansState>) -> bool {
        &&& trace.len() >= 2
        &&& self.starts(bands, trace[0])
        &&& forall|i: int|
            0 <= i < trace.len() - 1 ==> self.follows(bands, #[trigger] trace[i], trace[i + 1])
        &&& !(trace.last().phase is Iterating)
    }

    /// Checks the configuration against the bands and sets up a run: every
    /// cell without a class, and the first centres chosen as the
    /// configuration says.
    pub fn start(&self, bands: &Vec<Band>, rng: &mut rand::StdRng) -> (outcome: Result<
        KMeansState,
        ConfigError,
    >)
        requires
            forall|i: int| 0 <= i < bands@.len() ==> (#[trigger] bands@[i]).wf(),
        ensures
            match outcome {
                Err(e) => self.run_error(bands@) == Some(e),
                Ok(state) => {
                    &&& self.run_error(bands@) is None
                    &&& stack_wf(bands@)
                    &&& self.starts(bands@, state)
                },
            },
    {
        let band_count: usize = bands.len();
        let rows: usize = if band_count == 0 {
            0
        } else {
            bands[0].grid.rows()
        };
        let columns: usize = if band_count == 0 {
            0
        } else {
            bands[0].grid.columns()
        };
        match self.validate(band_count, rows, columns) {
            Err(e) => {
                return Err(e);
            },
            Ok(_) => {},
        }
        match check_extents(bands) {
            Err(e) => {
                return Err(e);
            },
            Ok(_) => {},
        }
        proof {
            assert(rows >= 1 && columns >= 1) by (nonlinear_arith)
                requires
                    2 <= rows * columns,
                    rows >= 0,
                    columns >= 0,
            ;
        }
        let centroids: Vec<Centroid> = match self.initialize {
            InitMode::Diagonal => diagonal_centroids(bands, self.num_classes),
            InitMode::Random => random_centroids(bands, self.num_classes, rng),
        };
        let mut labels: Vec<Vec<Option<usize>>> = Vec::new();
        let mut r: usize = 0;
        while r < rows
            invariant
                r <= rows,
                labels@.len() == r,
                forall|i: int| 0 <= i < r ==> (#[trigger] labels@[i])@.len() == columns,
                forall|i: int, c: int|
                    0 <= i < r && 0 <= c < columns ==> #[trigger] labels@[i]@[c] is None,
            decreases rows - r,
        {
            let mut line: Vec<Option<usize>> = Vec::new();
            let mut c: usize = 0;
            while c < columns
                invariant
                    c <= columns,
                    line@.len() == c,
                    forall|j: int| 0 <= j < c ==> #[trigger] line@[j] is None,
                decreases columns - c,
            {
                line.push(None);
                c += 1;
            }
            labels.push(line);
            r += 1;
        }
        Ok(
            KMeansState {
                centroids,
                assigned_from: Vec::new(),
                labels,
                class_n: Vec::new(),
                valid_cells: 0,
                changed_cells: 0,
                iterations: 0,
                phase: Phase::Iterating,
            },
        )
    }

    /// Runs one iteration: every valid cell is assigned to its nearest
    /// centre, the rows shared out in stripes over as many workers as the
    /// machine offers; the centres are updated, and the stopping rule is
    /// applied to the share of cells that changed class.
    pub fn iterate(&self, bands: &Vec<Band>, state: &mut KMeansState, rng: &mut rand::StdRng)
        requires
            stack_wf(bands@),
            self.run_error(bands@) is None,
            old(state).wf(*self, bands@),
            old(state).phase is Iterating,
        ensures
            self.follows(bands@, *old(state), *final(state)),
    {
        let workers: usize = available_workers();
        let agg: Aggregator = assignment_step(
            bands,
            &state.centroids,
            &mut state.labels,
            Partition::Striped,
            workers,
        );
        self.finish_iteration(bands, state, agg, rng);
    }

    /// Ends an iteration whose rows have all been assigned and gathered:
    /// the class sizes are taken over, the number of valid cells is taken
    /// from them in the first iteration, the centres are updated, and the
    /// stopping rule is applied to the share of cells that changed class.
    pub fn finish_iteration(
        &self,
        bands: &Vec<Band>,
        state: &mut KMeansState,
        agg: Aggregator,
        rng: &mut rand::StdRng,
    )
        requires
            stack_wf(bands@),
            self.run_error(bands@) is None,
            old(state).assigned(agg, *self, bands@),
        ensures
            final(state).wf(*self, bands@),
            final(state).iterations == old(state).iterations + 1,
            final(state).labels == old(state).labels,
            centroid_views(final(state).assigned_from@) == centroid_views(old(state).centroids@),
            final(state).changed_cells == agg.changed,
    {
        let ghost g = grids(bands@);
        let ghost prev = centroid_views(state.centroids@);
        let classes: usize = self.num_classes;
        proof {
            assert forall|b: int| 0 <= b < classes implies (#[trigger] agg.stats@[b]).count
                <= CELL_LIMIT by {
                assert(agg.stats@[b].bounded(g.len()));
            }
        }
        let mut class_n: Vec<u64> = Vec::new();
        let mut total: u64 = 0;
        let mut a: usize = 0;
        while a < classes
            invariant
                a <= classes,
                classes == agg.stats@.len(),
                classes <= CELL_LIMIT,
                forall|b: int| 0 <= b < classes ==> (#[trigger] agg.stats@[b]).count <= CELL_LIMIT,
                class_n@.len() == a,
                forall|b: int| 0 <= b < a ==> #[trigger] class_n@[b] == agg.stats@[b].count,
                total == seq_sum(counts_view(class_n@), a as int),
                total <= a * CELL_LIMIT,
            decreases classes - a,
        {
            let ghost before = class_n@;
            let n: u64 = agg.stats[a].count;
            assert(agg.stats@[a as int].count <= CELL_LIMIT);
            class_n.push(n);
            proof {
                lemma_sum_prefix(counts_view(before), counts_view(class_n@), a as int);
            }
            total = total + n;
            a += 1;
        }
        proof {
            lemma_class_sizes_sum_to_valid_cells(g, prev);
            assert(counts_view(class_n@) =~= class_counts(g, prev)) by {
                assert forall|b: int| 0 <= b < classes implies counts_view(class_n@)[b]
                    == class_counts(g, prev)[b] by {
                    assert(agg.stats@[b].stat(Stat::Count) == total_stat(g, prev, b, Stat::Count));
                }
            }
        }
        let mut next: Vec<Centroid> = copy_centroids(&state.centroids);
        update_centroids(&mut next, &agg.stats, bands.len(), self.min_class_size as u64, rng);
        proof {
            let new = centroid_views(next@);
            let mcs = self.min_class_size as int;
            assert forall|b: int| 0 <= b < prev.len() implies moved_class(
                #[trigger] new[b],
                g,
                prev,
                mcs,
                b,
            ) by {
                assert(agg.stats@[b].stat(Stat::Count) == total_stat(g, prev, b, Stat::Count));
                assert(agg.stats@[b].bounded(g.len()));
                let n = total_stat(g, prev, b, Stat::Count);
                if n >= mcs && n >= 1 {
                    assert(next@[b]@.num == agg.stats@[b].sum@);
                    assert forall|i: int| 0 <= i < g.len() implies #[trigger] new[b].num[i]
                        == total_stat(g, prev, b, Stat::Sum(i)) by {
                        assert(agg.stats@[b].stat(Stat::Sum(i)) == total_stat(
                            g,
                            prev,
                            b,
                            Stat::Sum(i),
                        ));
                    }
                } else if n >= mcs {
                    assert(next@[b]@ == centroid_views(state.centroids@)[b]);
                } else {
                    if next@[b]@ != centroid_views(state.centroids@)[b] {
                        assert(reseeded(next@[b]@, agg.stats@, mcs));
                        let d = choose|d: int|
                            0 <= d < agg.stats@.len() && (#[trigger] agg.stats@[d]).count > 2 * mcs
                                && within_range(next@[b]@, agg.stats@[d]);
                        assert(agg.stats@[d].stat(Stat::Count) == total_stat(
                            g,
                            prev,
                            d,
                            Stat::Count,
                        ));
                        assert(agg.stats@[d].bounded(g.len()));
                        assert forall|i: int| 0 <= i < g.len() implies total_stat(
                            g,
                            prev,
                            d,
                            Stat::Least(i),
                        ) <= #[trigger] new[b].num[i] <= total_stat(g, prev, d, Stat::Greatest(i)) by {
                            assert(agg.stats@[d].stat(Stat::Least(i)) == total_stat(
                                g,
                                prev,
                                d,
                                Stat::Least(i),
                            ));
                            assert(agg.stats@[d].stat(Stat::Greatest(i)) == total_stat(
                                g,
                                prev,
                                d,
                                Stat::Greatest(i),
                            ));
                        }
                        assert(drawn_from(new[b], g, prev, d));
                    }
                }
            }
        }
        let mut previous: Vec<Centroid> = next;
        std::mem::swap(&mut previous, &mut state.centroids);
        state.assigned_from = previous;
        state.class_n = class_n;
        if state.iterations == 0 {
            state.valid_cells = total;
        }
        state.changed_cells = agg.changed;
        state.iterations = state.iterations + 1;
        let stop: bool = has_converged(state.changed_cells, state.valid_cells, self.class_change);
        state.phase = if stop {
            Phase::Converged
        } else if state.iterations >= self.max_iterations {
            Phase::Exhausted
        } else {
            Phase::Iterating
        };
        proof {
            assert forall|b: int| 0 <= b < classes implies #[trigger] state.class_n@[b]
                == total_stat(g, prev, b, Stat::Count) by {
                assert(agg.stats@[b].stat(Stat::Count) == total_stat(g, prev, b, Stat::Count));
            }
            lemma_labels_below(state.labels@, g, prev);
        }
    }

    /// Runs the clustering to its end. A configuration at fault is turned
    /// down before any sample is looked at. Otherwise the run iterates until
    /// fewer cells than the threshold change class, and at most
    /// `max_iterations` times.
    pub fn run(&self, bands: &Vec<Band>, rng: &mut rand::StdRng) -> (outcome: Result<
        KMeansState,
        ConfigError,
    >)
        requires
            forall|i: int| 0 <= i < bands@.len() ==> (#[trigger] bands@[i]).wf(),
        ensures
            match outcome {
                Err(e) => self.run_error(bands@) == Some(e),
                Ok(state) => {
                    &&& self.run_error(bands@) is None
                    &&& state.wf(*self, bands@)
                    &&& 1 <= state.iterations <= self.max_iterations
                    &&& !(state.phase is Iterating)
                    &&& exists|trace: Seq<KMeansState>|
                        #[trigger] self.is_run(bands@, trace) && trace.last() == state
                },
            },
    {
        let mut state: KMeansState = match self.start(bands, rng) {
            Err(e) => {
                return Err(e);
            },
            Ok(s) => s,
        };
        let ghost mut trace: Seq<KMeansState> = seq![state];
        loop
            invariant_except_break
                state.phase is Iterating,
            invariant
                stack_wf(bands@),
                self.run_error(bands@) is None,
                state.wf(*self, bands@),
                trace.len() >= 1,
                trace.last() == state,
                self.starts(bands@, trace[0]),
                forall|i: int|
                    0 <= i < trace.len() - 1 ==> self.follows(
                        bands@,
                        #[trigger] trace[i],
                        trace[i + 1],
                    ),
            ensures
                state.iterations >= 1,
                !(state.phase is Iterating),
                trace.len() >= 2,
            decreases self.max_iterations - state.iterations,
        {
            self.iterate(bands, &mut state, rng);
            proof {
                trace = trace.push(state);
            }
            match state.phase {
                Phase::Iterating => {},
                _ => {
                    break ;
                },
            }
        }
        assert(self.is_run(bands@, trace));
        Ok(state)
    }
}

/// Appending an entry leaves the sum of the entries before it as it was.
proof fn lemma_sum_prefix(x: Seq<int>, y: Seq<int>, n: int)
    requires
        n <= x.len(),
        n <= y.len(),
        forall|a: int| 0 <= a < n ==> x[a] == y[a],
    ensures
        seq_sum(x, n) == seq_sum(y, n),
    decreases n,
{
    if n > 0 {
        lemma_sum_prefix(x, y, n - 1);
    }
}

} // verus!
