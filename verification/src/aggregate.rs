//! The aggregating side of an assignment step: row results arrive tagged
//! with their row, in any order, and are folded into the label grid, the
//! per-class statistics and the count of cells that changed class.

use crate::assign::{label_view, RowAssignment};
use crate::centroid::CELL_LIMIT;
use crate::fold::combine;
use crate::stats::{ClassStats, Stat};
use vstd::prelude::*;

verus! {

/// The labels of one row as mathematical labels.
pub open spec fn labels_view(row: Seq<Option<usize>>) -> Seq<Option<int>> {
    Seq::new(row.len(), |c: int| label_view(row[c]))
}

/// Among the first `n` cells of a row, the number that have a class in
/// `new_row` which is not their class in `old_row`. A cell without a class
/// before counts as changed.
pub open spec fn row_changes(old_row: Seq<Option<int>>, new_row: Seq<Option<int>>, n: int) -> int
    decreases n,
{
    if n <= 0 {
        0
    } else {
        row_changes(old_row, new_row, n - 1) + if new_row[n - 1] is Some && new_row[n - 1]
            != old_row[n - 1] {
            1int
        } else {
            0int
        }
    }
}

/// A row has at most as many changes as cells.
pub proof fn lemma_row_changes_bounds(old_row: Seq<Option<int>>, new_row: Seq<Option<int>>, n: int)
    requires
        0 <= n,
    ensures
        0 <= row_changes(old_row, new_row, n) <= n,
    decreases n,
{
    if n > 0 {
        lemma_row_changes_bounds(old_row, new_row, n - 1);
    }
}

/// Whether two stored labels are the same.
pub fn same_label(a: Option<usize>, b: Option<usize>) -> (same: bool)
    ensures
        same == (label_view(a) == label_view(b)),
{
    match a {
        Some(x) => match b {
            Some(y) => x == y,
            None => false,
        },
        None => match b {
            Some(_) => false,
            None => true,
        },
    }
}

/// The number of cells of a row whose class in `new_row` is not their class
/// in `old_row`.
pub fn count_changes(old_row: &Vec<Option<usize>>, new_row: &Vec<Option<usize>>) -> (changes: u64)
    requires
        old_row@.len() == new_row@.len(),
    ensures
        changes == row_changes(
            labels_view(old_row@),
            labels_view(new_row@),
            new_row@.len() as int,
        ),
        changes <= new_row@.len(),
{
    let mut changes: u64 = 0;
    let mut c: usize = 0;
    while c < new_row.len()
        invariant
            c <= new_row@.len(),
            old_row@.len() == new_row@.len(),
            changes <= c,
            changes == row_changes(labels_view(old_row@), labels_view(new_row@), c as int),
        decreases new_row@.len() - c,
    {
        let now: Option<usize> = new_row[c];
        let before: Option<usize> = old_row[c];
        let same: bool = same_label(now, before);
        if now.is_some() && !same {
            changes = changes + 1;
        }
        c += 1;
    }
    changes
}

/// What the aggregator has gathered from the rows received so far.
#[derive(Debug)]
pub struct Aggregator {
    /// The statistics of each class over the rows received.
    pub stats: Vec<ClassStats>,
    /// The number of cells that changed class in the rows received.
    pub changed: u64,
    /// Which rows were received.
    pub received: Vec<bool>,
}

impl Aggregator {
    /// The aggregator's shape: statistics for `classes` classes of `bands`
    /// bands, and a mark for each of `rows` rows.
    pub open spec fn shaped(&self, classes: nat, bands: nat, rows: nat) -> bool {
        &&& self.stats@.len() == classes
        &&& self.received@.len() == rows
        &&& forall|a: int| 0 <= a < classes ==> (#[trigger] self.stats@[a]).bounded(bands)
    }

    /// An aggregator that has received nothing.
    pub fn new(classes: usize, bands: usize, rows: usize) -> (agg: Aggregator)
        ensures
            agg.shaped(classes as nat, bands as nat, rows as nat),
            agg.changed == 0,
            forall|r: int| 0 <= r < rows ==> !(#[trigger] agg.received@[r]),
            forall|a: int, s: Stat|
                0 <= a < classes && s.within(bands as nat) ==> #[trigger] agg.stats@[a].stat(s)
                    == s.start(),
    {
        let stats: Vec<ClassStats> = crate::assign::empty_stats(classes, bands);
        let mut received: Vec<bool> = Vec::new();
        let mut r: usize = 0;
        while r < rows
            invariant
                r <= rows,
                received@.len() == r,
                forall|i: int| 0 <= i < r ==> !(#[trigger] received@[i]),
            decreases rows - r,
        {
            received.push(false);
            r += 1;
        }
        Aggregator { stats, changed: 0, received }
    }

    /// Whether a result can be taken: its row exists and was not received
    /// before, and its shape is that of the aggregator and of the label grid.
    pub open spec fn takes(
        &self,
        labels: Seq<Vec<Option<usize>>>,
        result: RowAssignment,
    ) -> bool {
        &&& result.row < self.received@.len()
        &&& !self.received@[result.row as int]
        &&& result.stats@.len() == self.stats@.len()
        &&& result.row < labels.len()
        &&& result.labels@.len() == labels[result.row as int]@.len()
    }

    /// Takes the result of one row: its labels go to the row that the tag
    /// names, its statistics are folded into the totals, and the cells whose
    /// class changed are counted. A result that cannot be taken is dropped,
    /// and `false` returned.
    pub fn accept(
        &mut self,
        labels: &mut Vec<Vec<Option<usize>>>,
        bands: usize,
        result: RowAssignment,
    ) -> (taken: bool)
        requires
            old(self).shaped(old(self).stats@.len(), bands as nat, old(self).received@.len()),
            forall|a: int|
                0 <= a < result.stats@.len() ==> (#[trigger] result.stats@[a]).bounded(
                    bands as nat,
                ),
            forall|a: int|
                0 <= a < result.stats@.len() && a < old(self).stats@.len() ==> old(
                    self,
                ).stats@[a].count + (#[trigger] result.stats@[a]).count <= CELL_LIMIT,
            old(self).changed + result.labels@.len() <= u64::MAX,
        ensures
            taken == old(self).takes(old(labels)@, result),
            final(self).shaped(old(self).stats@.len(), bands as nat, old(self).received@.len()),
            !taken ==> *final(self) == *old(self) && *final(labels) == *old(labels),
            taken ==> {
                &&& final(self).received@ == old(self).received@.update(result.row as int, true)
                &&& final(labels)@ == old(labels)@.update(result.row as int, result.labels)
                &&& final(self).changed == old(self).changed + row_changes(
                    labels_view(old(labels)@[result.row as int]@),
                    labels_view(result.labels@),
                    result.labels@.len() as int,
                )
                &&& forall|a: int, s: Stat|
                    0 <= a < old(self).stats@.len() && s.within(bands as nat)
                        ==> #[trigger] final(self).stats@[a].stat(s) == combine(
                        s.fold(),
                        old(self).stats@[a].stat(s),
                        result.stats@[a].stat(s),
                    )
            },
    {
        let row: usize = result.row;
        if row >= self.received.len() || row >= labels.len() {
            return false;
        }
        if self.received[row] || result.stats.len() != self.stats.len() || result.labels.len()
            != labels[row].len() {
            return false;
        }
        let changes: u64 = count_changes(&labels[row], &result.labels);
        let classes: usize = self.stats.len();
        let mut a: usize = 0;
        while a < classes
            invariant
                a <= classes,
                classes == old(self).stats@.len(),
                classes == result.stats@.len(),
                self.stats@.len() == classes,
                self.received == old(self).received,
                self.changed == old(self).changed,
                old(self).shaped(classes as nat, bands as nat, old(self).received@.len()),
                forall|b: int|
                    0 <= b < classes ==> (#[trigger] result.stats@[b]).bounded(bands as nat),
                forall|b: int|
                    0 <= b < classes ==> old(self).stats@[b].count + (
                    #[trigger] result.stats@[b]).count <= CELL_LIMIT,
                forall|b: int|
                    0 <= b < classes ==> (#[trigger] self.stats@[b]).bounded(bands as nat),
                forall|b: int| a <= b < classes ==> self.stats@[b] == old(self).stats@[b],
                forall|b: int, s: Stat|
                    0 <= b < a && s.within(bands as nat) ==> #[trigger] self.stats@[b].stat(s)
                        == combine(
                        s.fold(),
                        old(self).stats@[b].stat(s),
                        result.stats@[b].stat(s),
                    ),
            decreases classes - a,
        {
            let ghost before = self.stats@;
            assert(result.stats@[a as int].bounded(bands as nat));
            assert(before[a as int].bounded(bands as nat));
            assert(result.stats@[a as int].sum@.len() == bands);
            self.stats[a].merge(&result.stats[a]);
            assert forall|b: int| 0 <= b < classes implies (#[trigger] self.stats@[b]).bounded(
                bands as nat,
            ) by {
                if b != a {
                    assert(self.stats@[b] == before[b]);
                }
            }
            assert forall|b: int, s: Stat|
                0 <= b < a + 1 && s.within(bands as nat) implies #[trigger] self.stats@[b].stat(s)
                == combine(s.fold(), old(self).stats@[b].stat(s), result.stats@[b].stat(s)) by {
                if b != a {
                    assert(self.stats@[b] == before[b]);
                }
            }
            a += 1;
        }
        self.changed = self.changed + changes;
        self.received[row] = true;
        labels[row] = result.labels;
        true
    }
}

} // verus!
