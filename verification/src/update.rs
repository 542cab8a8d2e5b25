//! The centroid update: a class with enough members moves to the mean of its
//! members; a class with too few is reseeded within the range of a larger
//! class, picked at random.

use crate::centroid::{
    centroid_views, centroids_wf, sample_ok, Centroid, CentroidView, CELL_LIMIT, SAMPLE_LIMIT,
};
use crate::stats::ClassStats;
use rand::distributions::IndependentSample;
use vstd::prelude::*;

verus! {

/// `rand::StdRng`, the random generator that the caller hands in. Nothing is
/// known of its state.
#[verifier::external_type_specification]
#[verifier::external_body]
pub struct ExStdRng(rand::StdRng);

/// A number drawn from `low .. high`, by `rand`'s `Range::new(low,
/// high).ind_sample(rng)`. Which number comes is left open; it is at least
/// `low` and below `high`. `Range::new` panics unless `low < high`.
#[verifier::external_body]
pub(crate) fn random_between(rng: &mut rand::StdRng, low: i64, high: i64) -> (drawn: i64)
    requires
        low < high,
    ensures
        low <= drawn < high,
{
    rand::distributions::Range::new(low, high).ind_sample(rng)
}

/// The centre at a point with whole coordinates.
pub fn centroid_at(values: Vec<i64>) -> (c: Centroid)
    ensures
        c@.num == values@,
        c@.den == 1,
{
    Centroid { num: values, den: 1 }
}

/// The mean of the members of a class that has members.
pub fn mean_centroid(stats: &ClassStats) -> (c: Centroid)
    requires
        stats.bounded(stats.sum@.len()),
        stats.count >= 1,
    ensures
        c@.num == stats.sum@,
        c@.den == stats.count,
        c@.wf(stats.sum@.len()),
{
    let mut num: Vec<i64> = Vec::new();
    let mut i: usize = 0;
    while i < stats.sum.len()
        invariant
            i <= stats.sum@.len(),
            num@.len() == i,
            forall|j: int| 0 <= j < i ==> num@[j] == stats.sum@[j],
        decreases stats.sum@.len() - i,
    {
        num.push(stats.sum[i]);
        i += 1;
    }
    assert(num@ =~= stats.sum@);
    Centroid { num, den: stats.count }
}

/// Whether class `a` may serve as donor: it has more members than its
/// threshold asks.
pub open spec fn may_donate(stats: Seq<ClassStats>, thresholds: Seq<u64>, a: int) -> bool {
    stats[a].count > thresholds[a]
}

/// Whether a drawn class may serve as donor.
pub fn donor_accepted(stats: &Vec<ClassStats>, thresholds: &Vec<u64>, drawn: usize) -> (ok: bool)
    requires
        drawn < stats@.len(),
        drawn < thresholds@.len(),
    ensures
        ok == may_donate(stats@, thresholds@, drawn as int),
{
    stats[drawn].count > thresholds[drawn]
}

/// Whether `c` is a point within the range of the members of `donor`.
pub open spec fn within_range(c: CentroidView, donor: ClassStats) -> bool {
    &&& c.den == 1
    &&& c.num.len() == donor.sum@.len()
    &&& forall|i: int|
        0 <= i < c.num.len() ==> donor.least@[i] <= #[trigger] c.num[i] <= donor.greatest@[i]
}

/// Draws classes until one may serve as donor, at most ten times the number
/// of classes. The donor's threshold then rises by `min_class_size`, so that
/// it is not drained by one class after another. Which classes are drawn is
/// left to chance; where every class may serve, the first one drawn is taken,
/// so that no donor is found only where some class may not serve.
pub fn pick_donor(
    rng: &mut rand::StdRng,
    stats: &Vec<ClassStats>,
    thresholds: &mut Vec<u64>,
    min_class_size: u64,
) -> (donor: Option<usize>)
    requires
        1 <= stats@.len() <= CELL_LIMIT,
        old(thresholds)@.len() == stats@.len(),
        min_class_size <= CELL_LIMIT,
        forall|a: int| 0 <= a < stats@.len() ==> (#[trigger] stats@[a]).count <= CELL_LIMIT,
    ensures
        match donor {
            Some(d) => d < stats@.len() && may_donate(stats@, old(thresholds)@, d as int)
                && final(thresholds)@ == old(thresholds)@.update(
                d as int,
                (old(thresholds)@[d as int] + min_class_size) as u64,
            ),
            None => final(thresholds)@ == old(thresholds)@ && exists|a: int|
                0 <= a < stats@.len() && !#[trigger] may_donate(stats@, old(thresholds)@, a),
        },
{
    let classes: usize = stats.len();
    let chances: u64 = 10 * (classes as u64);
    let mut attempt: u64 = 0;
    while attempt < chances
        invariant
            classes == stats@.len(),
            1 <= classes <= CELL_LIMIT,
            chances == 10 * classes,
            attempt <= chances,
            thresholds@ == old(thresholds)@,
            thresholds@.len() == classes,
            min_class_size <= CELL_LIMIT,
            forall|a: int| 0 <= a < stats@.len() ==> (#[trigger] stats@[a]).count <= CELL_LIMIT,
            attempt > 0 ==> exists|a: int|
                0 <= a < stats@.len() && !#[trigger] may_donate(stats@, old(thresholds)@, a),
        decreases chances - attempt,
    {
        let drawn: usize = random_between(rng, 0, classes as i64) as usize;
        if donor_accepted(stats, thresholds, drawn) {
            assert(stats@[drawn as int].count <= CELL_LIMIT);
            let raised: u64 = thresholds[drawn] + min_class_size;
            thresholds[drawn] = raised;
            return Some(drawn);
        }
        assert(!may_donate(stats@, old(thresholds)@, drawn as int));
        attempt += 1;
    }
    None
}

/// A point drawn within the range of the members of a donor class, band by
/// band.
pub fn sample_within(rng: &mut rand::StdRng, donor: &ClassStats) -> (c: Centroid)
    requires
        donor.bounded(donor.sum@.len()),
        donor.count >= 1,
    ensures
        within_range(c@, *donor),
        c@.wf(donor.sum@.len()),
{
    let bands: usize = donor.sum.len();
    let mut values: Vec<i64> = Vec::new();
    let mut i: usize = 0;
    while i < bands
        invariant
            i <= bands,
            bands == donor.sum@.len(),
            donor.bounded(bands as nat),
            donor.count >= 1,
            values@.len() == i,
            forall|j: int|
                0 <= j < i ==> donor.least@[j] <= #[trigger] values@[j] <= donor.greatest@[j],
        decreases bands - i,
    {
        let low: i64 = donor.least[i];
        let high: i64 = donor.greatest[i];
        assert(sample_ok(donor.least@[i as int]));
        assert(sample_ok(donor.greatest@[i as int]));
        assert(donor.least@[i as int] <= donor.greatest@[i as int]);
        let v: i64 = if low < high {
            random_between(rng, low, high + 1)
        } else {
            low
        };
        values.push(v);
        i += 1;
    }
    let c: Centroid = centroid_at(values);
    assert forall|j: int| 0 <= j < bands implies -c@.den * SAMPLE_LIMIT <= #[trigger] c@.num[j]
        <= c@.den * SAMPLE_LIMIT by {
        assert(sample_ok(donor.least@[j]));
        assert(sample_ok(donor.greatest@[j]));
    }
    c
}

/// Whether `c` was drawn within the range of a class that has more than
/// twice `min_class_size` members.
pub open spec fn reseeded(c: CentroidView, stats: Seq<ClassStats>, min_class_size: int) -> bool {
    exists|d: int|
        0 <= d < stats.len() && (#[trigger] stats[d]).count > 2 * min_class_size && within_range(
            c,
            stats[d],
        )
}

/// Moves every centre: a class with at least `min_class_size` members, and
/// at least one, goes to the mean of its members. A class with fewer is
/// reseeded within the range of a donor class, or stays where it is when no
/// donor was found. A class without members that is not below
/// `min_class_size` stays where it is.
pub fn update_centroids(
    centroids: &mut Vec<Centroid>,
    stats: &Vec<ClassStats>,
    bands: usize,
    min_class_size: u64,
    rng: &mut rand::StdRng,
)
    requires
        1 <= stats@.len() <= CELL_LIMIT,
        old(centroids)@.len() == stats@.len(),
        min_class_size <= CELL_LIMIT,
        forall|a: int|
            0 <= a < stats@.len() ==> (#[trigger] stats@[a]).bounded(bands as nat),
        centroids_wf(centroid_views(old(centroids)@), bands as nat),
    ensures
        final(centroids)@.len() == stats@.len(),
        centroids_wf(centroid_views(final(centroids)@), bands as nat),
        forall|a: int|
            0 <= a < stats@.len() && stats@[a].count >= min_class_size && stats@[a].count >= 1
                ==> (#[trigger] final(centroids)@[a])@.num == stats@[a].sum@
                && final(centroids)@[a]@.den == stats@[a].count,
        forall|a: int|
            0 <= a < stats@.len() && stats@[a].count >= min_class_size && stats@[a].count == 0
                ==> (#[trigger] final(centroids)@[a])@ == old(centroids)@[a]@,
        forall|a: int|
            0 <= a < stats@.len() && stats@[a].count < min_class_size ==> (
            #[trigger] final(centroids)@[a])@ == old(centroids)@[a]@ || reseeded(
                final(centroids)@[a]@,
                stats@,
                min_class_size as int,
            ),
{
    let classes: usize = stats.len();
    let mut thresholds: Vec<u64> = Vec::new();
    let mut a: usize = 0;
    while a < classes
        invariant
            a <= classes,
            min_class_size <= CELL_LIMIT,
            thresholds@.len() == a,
            forall|b: int| 0 <= b < a ==> #[trigger] thresholds@[b] >= 2 * min_class_size,
        decreases classes - a,
    {
        thresholds.push(2 * min_class_size);
        a += 1;
    }
    let mut a: usize = 0;
    while a < classes
        invariant
            a <= classes,
            classes == stats@.len(),
            1 <= classes <= CELL_LIMIT,
            min_class_size <= CELL_LIMIT,
            centroids@.len() == classes,
            thresholds@.len() == classes,
            forall|b: int| 0 <= b < classes ==> #[trigger] thresholds@[b] >= 2 * min_class_size,
            forall|b: int| 0 <= b < classes ==> (#[trigger] stats@[b]).bounded(bands as nat),
            centroids_wf(centroid_views(centroids@), bands as nat),
            forall|b: int| a <= b < classes ==> (#[trigger] centroids@[b])@ == old(centroids)@[b]@,
            forall|b: int|
                0 <= b < a && stats@[b].count >= min_class_size && stats@[b].count >= 1 ==> (
                #[trigger] centroids@[b])@.num == stats@[b].sum@ && centroids@[b]@.den
                    == stats@[b].count,
            forall|b: int|
                0 <= b < a && stats@[b].count >= min_class_size && stats@[b].count == 0 ==> (
                #[trigger] centroids@[b])@ == old(centroids)@[b]@,
            forall|b: int|
                0 <= b < a && stats@[b].count < min_class_size ==> (#[trigger] centroids@[b])@
                    == old(centroids)@[b]@ || reseeded(
                    centroids@[b]@,
                    stats@,
                    min_class_size as int,
                ),
        decreases classes - a,
    {
        let ghost before = centroids@;
        assert(stats@[a as int].bounded(bands as nat));
        assert(stats@[a as int].sum@.len() == bands);
        let mut moved: Option<Centroid> = None;
        if stats[a].count >= min_class_size {
            if stats[a].count >= 1 {
                moved = Some(mean_centroid(&stats[a]));
            }
        } else {
            assert forall|b: int| 0 <= b < stats@.len() implies (#[trigger] stats@[b]).count
                <= CELL_LIMIT by {
                assert(stats@[b].bounded(bands as nat));
            }
            let ghost marks = thresholds@;
            let donor: Option<usize> = pick_donor(rng, stats, &mut thresholds, min_class_size);
            match donor {
                Some(d) => {
                    assert(stats@[d as int].bounded(bands as nat));
                    assert(stats@[d as int].sum@.len() == bands);
                    assert(marks[d as int] >= 2 * min_class_size);
                    let c: Centroid = sample_within(rng, &stats[d]);
                    assert(reseeded(c@, stats@, min_class_size as int));
                    moved = Some(c);
                },
                None => {},
            }
        }
        match moved {
            Some(c) => {
                let ghost cv = c@;
                centroids[a] = c;
                assert(centroids@[a as int]@ == cv);
                assert forall|b: int| 0 <= b < classes implies (#[trigger] centroid_views(
                    centroids@,
                )[b]).wf(bands as nat) by {
                    if b != a {
                        assert(centroids@[b] == before[b]);
                        assert(centroid_views(before)[b].wf(bands as nat));
                    }
                }
                assert forall|b: int| 0 <= b < classes && b != a implies (
                #[trigger] centroids@[b]) == before[b] by {}
            },
            None => {},
        }
        a += 1;
    }
}

} // verus!
