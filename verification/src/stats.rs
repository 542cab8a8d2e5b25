//! Per-class statistics of the cells assigned to a class: how many there
//! are, and per band their sum, their least and their greatest sample.

use crate::centroid::{sample_ok, samples_ok, CELL_LIMIT, SAMPLE_LIMIT};
use crate::fold::{combine, Fold};
use vstd::prelude::*;

verus! {

/// One statistic of a class.
pub enum Stat {
    /// The number of cells.
    Count,
    /// The sum of the samples of a band.
    Sum(int),
    /// The least sample of a band.
    Least(int),
    /// The greatest sample of a band.
    Greatest(int),
}

impl Stat {
    /// How the statistic combines.
    pub open spec fn fold(self) -> Fold {
        match self {
            Stat::Count => Fold::Add,
            Stat::Sum(_) => Fold::Add,
            Stat::Least(_) => Fold::Least,
            Stat::Greatest(_) => Fold::Greatest,
        }
    }

    /// The statistic of no cells at all.
    pub open spec fn start(self) -> int {
        match self {
            Stat::Count => 0,
            Stat::Sum(_) => 0,
            Stat::Least(_) => SAMPLE_LIMIT as int,
            Stat::Greatest(_) => -SAMPLE_LIMIT as int,
        }
    }

    /// Whether the statistic speaks of one of `bands` bands.
    pub open spec fn within(self, bands: nat) -> bool {
        match self {
            Stat::Count => true,
            Stat::Sum(i) => 0 <= i < bands,
            Stat::Least(i) => 0 <= i < bands,
            Stat::Greatest(i) => 0 <= i < bands,
        }
    }

    /// What one cell with the tuple `v` contributes.
    pub open spec fn term(self, v: Seq<i64>) -> int {
        match self {
            Stat::Count => 1,
            Stat::Sum(i) => v[i] as int,
            Stat::Least(i) => v[i] as int,
            Stat::Greatest(i) => v[i] as int,
        }
    }
}

/// The statistics of one class.
#[derive(Debug)]
pub struct ClassStats {
    pub count: u64,
    pub sum: Vec<i64>,
    pub least: Vec<i64>,
    pub greatest: Vec<i64>,
}

impl ClassStats {
    /// The value of one statistic.
    pub open spec fn stat(&self, s: Stat) -> int {
        match s {
            Stat::Count => self.count as int,
            Stat::Sum(i) => self.sum@[i] as int,
            Stat::Least(i) => self.least@[i] as int,
            Stat::Greatest(i) => self.greatest@[i] as int,
        }
    }

    /// Statistics of `bands` bands whose sums are those of `count` samples
    /// within the limit.
    pub open spec fn bounded(&self, bands: nat) -> bool {
        &&& self.sum@.len() == bands
        &&& self.least@.len() == bands
        &&& self.greatest@.len() == bands
        &&& self.count <= CELL_LIMIT
        &&& forall|i: int|
            0 <= i < bands ==> -self.count * SAMPLE_LIMIT <= #[trigger] self.sum@[i] <= self.count
                * SAMPLE_LIMIT
        &&& forall|i: int| 0 <= i < bands ==> sample_ok(#[trigger] self.least@[i])
        &&& forall|i: int| 0 <= i < bands ==> sample_ok(#[trigger] self.greatest@[i])
        &&& self.count >= 1 ==> forall|i: int|
            0 <= i < bands ==> #[trigger] self.least@[i] <= self.greatest@[i]
    }

    /// The statistics of no cells.
    pub fn empty(bands: usize) -> (stats: ClassStats)
        ensures
            stats.bounded(bands as nat),
            forall|s: Stat| s.within(bands as nat) ==> #[trigger] stats.stat(s) == s.start(),
    {
        let mut sum: Vec<i64> = Vec::new();
        let mut least: Vec<i64> = Vec::new();
        let mut greatest: Vec<i64> = Vec::new();
        let mut i: usize = 0;
        while i < bands
            invariant
                i <= bands,
                sum@.len() == i,
                least@.len() == i,
                greatest@.len() == i,
                forall|j: int| 0 <= j < i ==> sum@[j] == 0,
                forall|j: int| 0 <= j < i ==> least@[j] == SAMPLE_LIMIT,
                forall|j: int| 0 <= j < i ==> greatest@[j] == -SAMPLE_LIMIT,
            decreases bands - i,
        {
            sum.push(0);
            least.push(SAMPLE_LIMIT);
            greatest.push(-SAMPLE_LIMIT);
            i += 1;
        }
        ClassStats { count: 0, sum, least, greatest }
    }

    /// Counts one more cell with the tuple `value`.
    pub fn add_cell(&mut self, value: &Vec<i64>)
        requires
            old(self).bounded(value@.len()),
            samples_ok(value@),
            old(self).count < CELL_LIMIT,
        ensures
            final(self).bounded(value@.len()),
            forall|s: Stat|
                s.within(value@.len()) ==> #[trigger] final(self).stat(s) == combine(
                    s.fold(),
                    old(self).stat(s),
                    s.term(value@),
                ),
    {
        let bands: usize = value.len();
        let mut i: usize = 0;
        while i < bands
            invariant
                i <= bands,
                bands == value@.len(),
                samples_ok(value@),
                old(self).bounded(bands as nat),
                old(self).count < CELL_LIMIT,
                self.count == old(self).count,
                self.sum@.len() == bands,
                self.least@.len() == bands,
                self.greatest@.len() == bands,
                forall|j: int|
                    0 <= j < i ==> #[trigger] self.sum@[j] == old(self).sum@[j] + value@[j],
                forall|j: int|
                    0 <= j < i ==> #[trigger] self.least@[j] == combine(
                        Fold::Least,
                        old(self).least@[j] as int,
                        value@[j] as int,
                    ),
                forall|j: int|
                    0 <= j < i ==> #[trigger] self.greatest@[j] == combine(
                        Fold::Greatest,
                        old(self).greatest@[j] as int,
                        value@[j] as int,
                    ),
                forall|j: int| i <= j < bands ==> #[trigger] self.sum@[j] == old(self).sum@[j],
                forall|j: int| i <= j < bands ==> #[trigger] self.least@[j] == old(self).least@[j],
                forall|j: int|
                    i <= j < bands ==> #[trigger] self.greatest@[j] == old(self).greatest@[j],
            decreases bands - i,
        {
            let v: i64 = value[i];
            assert(sample_ok(value@[i as int]));
            assert(-old(self).count * SAMPLE_LIMIT <= old(self).sum@[i as int] <= old(self).count
                * SAMPLE_LIMIT);
            let s: i64 = self.sum[i] + v;
            self.sum[i] = s;
            if v < self.least[i] {
                self.least[i] = v;
            }
            if v > self.greatest[i] {
                self.greatest[i] = v;
            }
            i += 1;
        }
        self.count = self.count + 1;
        assert forall|s: Stat| s.within(value@.len()) implies #[trigger] self.stat(s) == combine(
            s.fold(),
            old(self).stat(s),
            s.term(value@),
        ) by {
            match s {
                Stat::Count => {},
                Stat::Sum(j) => {},
                Stat::Least(j) => {},
                Stat::Greatest(j) => {},
            }
        }
        assert forall|j: int| 0 <= j < bands implies -self.count * SAMPLE_LIMIT
            <= #[trigger] self.sum@[j] <= self.count * SAMPLE_LIMIT by {
            assert(sample_ok(value@[j]));
            assert(-old(self).count * SAMPLE_LIMIT <= old(self).sum@[j] <= old(self).count
                * SAMPLE_LIMIT);
        }
        assert forall|j: int| 0 <= j < bands implies sample_ok(#[trigger] self.least@[j]) by {
            assert(sample_ok(value@[j]));
            assert(sample_ok(old(self).least@[j]));
        }
        assert forall|j: int| 0 <= j < bands implies sample_ok(#[trigger] self.greatest@[j]) by {
            assert(sample_ok(value@[j]));
            assert(sample_ok(old(self).greatest@[j]));
        }
    }

    /// Folds the statistics of other cells into these.
    pub fn merge(&mut self, other: &ClassStats)
        requires
            old(self).bounded(other.sum@.len()),
            other.bounded(other.sum@.len()),
            old(self).count + other.count <= CELL_LIMIT,
        ensures
            final(self).bounded(other.sum@.len()),
            forall|s: Stat|
                s.within(other.sum@.len()) ==> #[trigger] final(self).stat(s) == combine(
                    s.fold(),
                    old(self).stat(s),
                    other.stat(s),
                ),
    {
        let bands: usize = other.sum.len();
        let mut i: usize = 0;
        while i < bands
            invariant
                i <= bands,
                bands == other.sum@.len(),
                other.bounded(bands as nat),
                old(self).bounded(bands as nat),
                old(self).count + other.count <= CELL_LIMIT,
                self.count == old(self).count,
                self.sum@.len() == bands,
                self.least@.len() == bands,
                self.greatest@.len() == bands,
                forall|j: int|
                    0 <= j < i ==> #[trigger] self.sum@[j] == old(self).sum@[j] + other.sum@[j],
                forall|j: int|
                    0 <= j < i ==> #[trigger] self.least@[j] == combine(
                        Fold::Least,
                        old(self).least@[j] as int,
                        other.least@[j] as int,
                    ),
                forall|j: int|
                    0 <= j < i ==> #[trigger] self.greatest@[j] == combine(
                        Fold::Greatest,
                        old(self).greatest@[j] as int,
                        other.greatest@[j] as int,
                    ),
                forall|j: int| i <= j < bands ==> #[trigger] self.sum@[j] == old(self).sum@[j],
                forall|j: int| i <= j < bands ==> #[trigger] self.least@[j] == old(self).least@[j],
                forall|j: int|
                    i <= j < bands ==> #[trigger] self.greatest@[j] == old(self).greatest@[j],
            decreases bands - i,
        {
            assert(-old(self).count * SAMPLE_LIMIT <= old(self).sum@[i as int] <= old(self).count
                * SAMPLE_LIMIT);
            assert(-other.count * SAMPLE_LIMIT <= other.sum@[i as int] <= other.count
                * SAMPLE_LIMIT);
            let s: i64 = self.sum[i] + other.sum[i];
            self.sum[i] = s;
            if other.least[i] < self.least[i] {
                self.least[i] = other.least[i];
            }
            if other.greatest[i] > self.greatest[i] {
                self.greatest[i] = other.greatest[i];
            }
            i += 1;
        }
        self.count = self.count + other.count;
        assert forall|s: Stat| s.within(other.sum@.len()) implies #[trigger] self.stat(s)
            == combine(s.fold(), old(self).stat(s), other.stat(s)) by {
            match s {
                Stat::Count => {},
                Stat::Sum(j) => {},
                Stat::Least(j) => {},
                Stat::Greatest(j) => {},
            }
        }
        assert forall|j: int| 0 <= j < bands implies -self.count * SAMPLE_LIMIT
            <= #[trigger] self.sum@[j] <= self.count * SAMPLE_LIMIT by {
            assert(-old(self).count * SAMPLE_LIMIT <= old(self).sum@[j] <= old(self).count
                * SAMPLE_LIMIT);
            assert(-other.count * SAMPLE_LIMIT <= other.sum@[j] <= other.count * SAMPLE_LIMIT);
        }
        assert forall|j: int| 0 <= j < bands implies sample_ok(#[trigger] self.least@[j]) by {
            assert(sample_ok(other.least@[j]));
            assert(sample_ok(old(self).least@[j]));
        }
        assert forall|j: int| 0 <= j < bands implies sample_ok(#[trigger] self.greatest@[j]) by {
            assert(sample_ok(other.greatest@[j]));
            assert(sample_ok(old(self).greatest@[j]));
        }
    }
}

} // verus!
