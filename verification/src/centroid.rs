//! Cluster centres as exact fractions, and the nearest-centre rule.
//!
//! A centre is the mean of integer samples, so each of its coordinates is a
//! fraction. All coordinates of one centre share a denominator, which keeps
//! every comparison of distances exact.

use crate::ratio::{fraction_less, fraction_lt};
use vstd::prelude::*;

verus! {

/// The largest magnitude of a sample that the classifier accepts.
pub const SAMPLE_LIMIT: i64 = 0x8000_0000;

/// The largest number of cells in a band that the classifier accepts.
pub const CELL_LIMIT: u64 = 0x1000_0000;

/// The largest number of bands that the classifier accepts.
pub const BAND_LIMIT: usize = 255;

/// Whether a sample is small enough for exact distance arithmetic.
pub open spec fn sample_ok(v: i64) -> bool {
    -SAMPLE_LIMIT <= v <= SAMPLE_LIMIT
}

/// Whether a cell tuple has only samples within the limit.
pub open spec fn samples_ok(v: Seq<i64>) -> bool {
    forall|i: int| 0 <= i < v.len() ==> sample_ok(#[trigger] v[i])
}

/// A point of band space: coordinate `i` is `num[i] / den`.
pub struct CentroidView {
    pub num: Seq<i64>,
    pub den: int,
}

impl CentroidView {
    /// A centre of `bands` coordinates, each within the sample limit.
    pub open spec fn wf(self, bands: nat) -> bool {
        &&& self.num.len() == bands
        &&& 1 <= self.den <= CELL_LIMIT
        &&& forall|i: int|
            0 <= i < bands ==> -self.den * SAMPLE_LIMIT <= #[trigger] self.num[i] <= self.den
                * SAMPLE_LIMIT
    }
}

/// A cluster centre. Coordinate `i` is the fraction `num[i] / den`.
#[derive(Debug)]
pub struct Centroid {
    pub num: Vec<i64>,
    pub den: u64,
}

impl View for Centroid {
    type V = CentroidView;

    open spec fn view(&self) -> CentroidView {
        CentroidView { num: self.num@, den: self.den as int }
    }
}

/// The views of a list of centres.
pub open spec fn centroid_views(cs: Seq<Centroid>) -> Seq<CentroidView> {
    Seq::new(cs.len(), |a: int| cs[a]@)
}

/// Whether every centre of a list is well formed for `bands` coordinates.
pub open spec fn centroids_wf(cs: Seq<CentroidView>, bands: nat) -> bool {
    forall|a: int| 0 <= a < cs.len() ==> (#[trigger] cs[a]).wf(bands)
}

/// `den` times the difference between a sample and coordinate `i` of `c`.
pub open spec fn scaled_offset(v: i64, c: CentroidView, i: int) -> int {
    v * c.den - c.num[i]
}

/// `den * den` times the squared distance between `v` and `c`, over the
/// first `n` bands.
pub open spec fn scaled_distance(v: Seq<i64>, c: CentroidView, n: int) -> int
    decreases n,
{
    if n <= 0 {
        0
    } else {
        scaled_distance(v, c, n - 1) + scaled_offset(v[n - 1], c, n - 1) * scaled_offset(
            v[n - 1],
            c,
            n - 1,
        )
    }
}

/// Whether `v` is strictly nearer to `c` than to `d`, by squared Euclidean
/// distance over all bands.
pub open spec fn nearer(v: Seq<i64>, c: CentroidView, d: CentroidView) -> bool {
    fraction_lt(
        scaled_distance(v, c, v.len() as int),
        c.den * c.den,
        scaled_distance(v, d, v.len() as int),
        d.den * d.den,
    )
}

/// The class that `v` falls to among the first `n` centres: each centre in
/// turn takes the cell only if it is strictly nearer than the best so far.
pub open spec fn nearest_among(v: Seq<i64>, cs: Seq<CentroidView>, n: int) -> int
    decreases n,
{
    if n <= 1 {
        0
    } else {
        let best = nearest_among(v, cs, n - 1);
        if nearer(v, cs[n - 1], cs[best]) {
            n - 1
        } else {
            best
        }
    }
}

/// The class of `v`: the index of its nearest centre, the lowest one among
/// equally near centres.
pub open spec fn nearest(v: Seq<i64>, cs: Seq<CentroidView>) -> int {
    nearest_among(v, cs, cs.len() as int)
}

/// The class among the first `n` centres is one of them.
pub proof fn lemma_nearest_among_bounds(v: Seq<i64>, cs: Seq<CentroidView>, n: int)
    requires
        1 <= n,
    ensures
        0 <= nearest_among(v, cs, n) < n,
    decreases n,
{
    if n > 1 {
        lemma_nearest_among_bounds(v, cs, n - 1);
    }
}

/// Fractions with positive denominators are ordered transitively: below
/// something that is not above a third is below the third.
proof fn lemma_fraction_order(p1: int, q1: int, p2: int, q2: int, p3: int, q3: int)
    requires
        q1 > 0,
        q2 > 0,
        q3 > 0,
        fraction_lt(p1, q1, p2, q2),
        !fraction_lt(p3, q3, p2, q2),
    ensures
        fraction_lt(p1, q1, p3, q3),
{
    assert(p1 * q2 * q3 < p2 * q1 * q3) by (nonlinear_arith)
        requires
            p1 * q2 < p2 * q1,
            q3 > 0,
    ;
    assert(p2 * q3 * q1 <= p3 * q2 * q1) by (nonlinear_arith)
        requires
            p2 * q3 <= p3 * q2,
            q1 > 0,
    ;
    assert(p2 * q1 * q3 == p2 * q3 * q1) by (nonlinear_arith);
    assert(p1 * q2 * q3 == (p1 * q3) * q2) by (nonlinear_arith);
    assert(p3 * q2 * q1 == (p3 * q1) * q2) by (nonlinear_arith);
    assert(p1 * q3 < p3 * q1) by (nonlinear_arith)
        requires
            (p1 * q3) * q2 < (p3 * q1) * q2,
            q2 > 0,
    ;
}

/// Among the first `n` centres, none is strictly nearer to `v` than the
/// class of `v`, and the class is strictly nearer than every centre before
/// it.
proof fn lemma_nearest_among(v: Seq<i64>, cs: Seq<CentroidView>, n: int, b: int)
    requires
        1 <= n <= cs.len(),
        0 <= b < n,
        forall|a: int| 0 <= a < cs.len() ==> (#[trigger] cs[a]).den >= 1,
    ensures
        !nearer(v, cs[b], cs[nearest_among(v, cs, n)]),
        b < nearest_among(v, cs, n) ==> nearer(v, cs[nearest_among(v, cs, n)], cs[b]),
    decreases n,
{
    let len = v.len() as int;
    if n > 1 {
        lemma_nearest_among_bounds(v, cs, n - 1);
        let best = nearest_among(v, cs, n - 1);
        let c = cs[n - 1];
        assert(c.den >= 1);
        assert(cs[best].den >= 1);
        assert(cs[b].den >= 1);
        assert(c.den * c.den > 0) by (nonlinear_arith)
            requires
                c.den >= 1,
        ;
        assert(cs[best].den * cs[best].den > 0) by (nonlinear_arith)
            requires
                cs[best].den >= 1,
        ;
        assert(cs[b].den * cs[b].den > 0) by (nonlinear_arith)
            requires
                cs[b].den >= 1,
        ;
        if b < n - 1 {
            lemma_nearest_among(v, cs, n - 1, b);
            if nearer(v, c, cs[best]) {
                lemma_fraction_order(
                    scaled_distance(v, c, len),
                    c.den * c.den,
                    scaled_distance(v, cs[best], len),
                    cs[best].den * cs[best].den,
                    scaled_distance(v, cs[b], len),
                    cs[b].den * cs[b].den,
                );
            }
        }
    }
}

/// The class of a cell tuple is its nearest centre: no centre is strictly
/// nearer, and every centre with a lower index is strictly farther.
pub proof fn lemma_nearest_is_nearest(v: Seq<i64>, cs: Seq<CentroidView>, b: int)
    requires
        0 <= b < cs.len(),
        forall|a: int| 0 <= a < cs.len() ==> (#[trigger] cs[a]).den >= 1,
    ensures
        0 <= nearest(v, cs) < cs.len(),
        !nearer(v, cs[b], cs[nearest(v, cs)]),
        b < nearest(v, cs) ==> nearer(v, cs[nearest(v, cs)], cs[b]),
{
    lemma_nearest_among_bounds(v, cs, cs.len() as int);
    lemma_nearest_among(v, cs, cs.len() as int, b);
}

/// One band's share of a scaled distance, bounded.
proof fn lemma_offset_bound(v: i64, num: i64, den: int)
    requires
        sample_ok(v),
        1 <= den <= CELL_LIMIT,
        -den * SAMPLE_LIMIT <= num <= den * SAMPLE_LIMIT,
    ensures
        -0x0800_0000_0000_0000 <= v * den <= 0x0800_0000_0000_0000,
        -0x1000_0000_0000_0000 <= v * den - num <= 0x1000_0000_0000_0000,
        0 <= (v * den - num) * (v * den - num) <= 0x0100_0000_0000_0000_0000_0000_0000_0000,
{
    assert(-0x0800_0000_0000_0000 <= v * den <= 0x0800_0000_0000_0000) by (nonlinear_arith)
        requires
            -0x8000_0000 <= v <= 0x8000_0000,
            1 <= den <= 0x1000_0000,
    ;
    let t = v * den - num;
    assert(0 <= t * t <= 0x0100_0000_0000_0000_0000_0000_0000_0000) by (nonlinear_arith)
        requires
            -0x1000_0000_0000_0000 <= t <= 0x1000_0000_0000_0000,
    ;
}

/// `den * den` times the squared distance between a cell tuple and a centre.
pub fn scaled_distance_to(value: &Vec<i64>, c: &Centroid) -> (d: u128)
    requires
        value@.len() <= BAND_LIMIT,
        samples_ok(value@),
        c@.wf(value@.len()),
    ensures
        d == scaled_distance(value@, c@, value@.len() as int),
{
    let mut total: u128 = 0;
    let mut i: usize = 0;
    while i < value.len()
        invariant
            i <= value@.len() <= BAND_LIMIT,
            samples_ok(value@),
            c@.wf(value@.len()),
            total == scaled_distance(value@, c@, i as int),
            total <= i * 0x0100_0000_0000_0000_0000_0000_0000_0000,
        decreases value@.len() - i,
    {
        let v: i128 = value[i] as i128;
        let den: i128 = c.den as i128;
        let num: i128 = c.num[i] as i128;
        proof {
            assert(sample_ok(value@[i as int]));
            lemma_offset_bound(value@[i as int], c@.num[i as int], c@.den);
        }
        let t: i128 = v * den - num;
        let square: u128 = (t * t) as u128;
        total = total + square;
        i += 1;
    }
    total
}

/// Whether a cell tuple is strictly nearer to `c` than to `d`.
pub fn is_nearer(value: &Vec<i64>, c: &Centroid, d: &Centroid) -> (b: bool)
    requires
        value@.len() <= BAND_LIMIT,
        samples_ok(value@),
        c@.wf(value@.len()),
        d@.wf(value@.len()),
    ensures
        b == nearer(value@, c@, d@),
{
    let dist_c: u128 = scaled_distance_to(value, c);
    let dist_d: u128 = scaled_distance_to(value, d);
    proof {
        lemma_square_bound(c@.den);
        lemma_square_bound(d@.den);
    }
    let scale_c: u128 = (c.den as u128) * (c.den as u128);
    let scale_d: u128 = (d.den as u128) * (d.den as u128);
    fraction_less(dist_c, scale_c, dist_d, scale_d)
}

/// The square of a denominator is positive and small.
proof fn lemma_square_bound(den: int)
    requires
        1 <= den <= CELL_LIMIT,
    ensures
        1 <= den * den <= 0x0100_0000_0000_0000,
{
    assert(1 <= den * den <= 0x0100_0000_0000_0000) by (nonlinear_arith)
        requires
            1 <= den <= 0x1000_0000,
    ;
}

/// A non-negative fraction `num / den`.
#[derive(Clone, Copy, Debug)]
pub struct Fraction {
    pub num: u128,
    pub den: u128,
}

/// The product of both denominators times the difference between the
/// coordinates `i` of two centres.
pub open spec fn scaled_gap(a: CentroidView, b: CentroidView, i: int) -> int {
    a.num[i] * b.den - b.num[i] * a.den
}

/// The square of the product of both denominators times the squared
/// distance between two centres, over the first `n` bands.
pub open spec fn scaled_separation(a: CentroidView, b: CentroidView, n: int) -> int
    decreases n,
{
    if n <= 0 {
        0
    } else {
        scaled_separation(a, b, n - 1) + scaled_gap(a, b, n - 1) * scaled_gap(a, b, n - 1)
    }
}

/// A scaled separation does not shrink as bands are added.
proof fn lemma_separation_grows(a: CentroidView, b: CentroidView, m: int, n: int)
    requires
        0 <= m <= n,
    ensures
        0 <= scaled_separation(a, b, m) <= scaled_separation(a, b, n),
    decreases n,
{
    if n > m {
        lemma_separation_grows(a, b, m, n - 1);
        let t = scaled_gap(a, b, n - 1);
        assert(0 <= t * t) by (nonlinear_arith);
    } else if n > 0 {
        lemma_separation_grows(a, b, m - 1, n - 1);
        let t = scaled_gap(a, b, n - 1);
        assert(0 <= t * t) by (nonlinear_arith);
    }
}

/// One coordinate's share of a scaled separation, bounded.
proof fn lemma_gap_bound(x: i64, p: int, y: i64, q: int)
    requires
        1 <= p <= CELL_LIMIT,
        1 <= q <= CELL_LIMIT,
        -p * SAMPLE_LIMIT <= x <= p * SAMPLE_LIMIT,
        -q * SAMPLE_LIMIT <= y <= q * SAMPLE_LIMIT,
    ensures
        -0x0080_0000_0000_0000_0000_0000 <= x * q <= 0x0080_0000_0000_0000_0000_0000,
        -0x0080_0000_0000_0000_0000_0000 <= y * p <= 0x0080_0000_0000_0000_0000_0000,
        1 <= p * q <= 0x0100_0000_0000_0000,
        1 <= (p * q) * (p * q) <= 0x0001_0000_0000_0000_0000_0000_0000_0000,
{
    assert(-0x0080_0000_0000_0000_0000_0000 <= x * q <= 0x0080_0000_0000_0000_0000_0000)
        by (nonlinear_arith)
        requires
            -0x0800_0000_0000_0000 <= x <= 0x0800_0000_0000_0000,
            1 <= q <= 0x1000_0000,
    ;
    assert(-0x0080_0000_0000_0000_0000_0000 <= y * p <= 0x0080_0000_0000_0000_0000_0000)
        by (nonlinear_arith)
        requires
            -0x0800_0000_0000_0000 <= y <= 0x0800_0000_0000_0000,
            1 <= p <= 0x1000_0000,
    ;
    assert(1 <= p * q <= 0x0100_0000_0000_0000) by (nonlinear_arith)
        requires
            1 <= p <= 0x1000_0000,
            1 <= q <= 0x1000_0000,
    ;
    let d = p * q;
    assert(1 <= d * d <= 0x0001_0000_0000_0000_0000_0000_0000_0000) by (nonlinear_arith)
        requires
            1 <= d <= 0x0100_0000_0000_0000,
    ;
}

/// The squared distance between two centres as a fraction, where its
/// numerator over the square of the product of both denominators fits.
pub fn squared_separation(a: &Centroid, b: &Centroid) -> (d: Option<Fraction>)
    requires
        a@.wf(a@.num.len()),
        b@.wf(a@.num.len()),
    ensures
        d is Some <==> scaled_separation(a@, b@, a@.num.len() as int) <= u128::MAX,
        d is Some ==> d.unwrap().num == scaled_separation(a@, b@, a@.num.len() as int)
            && d.unwrap().den == (a@.den * b@.den) * (a@.den * b@.den),
{
    let bands: usize = a.num.len();
    let mut total: u128 = 0;
    let mut i: usize = 0;
    while i < bands
        invariant
            i <= bands,
            bands == a@.num.len(),
            a@.wf(bands as nat),
            b@.wf(bands as nat),
            total == scaled_separation(a@, b@, i as int),
        decreases bands - i,
    {
        proof {
            lemma_gap_bound(a@.num[i as int], a@.den, b@.num[i as int], b@.den);
            lemma_separation_grows(a@, b@, i + 1, bands as int);
            lemma_separation_grows(a@, b@, i as int, i + 1);
        }
        let t: i128 = (a.num[i] as i128) * (b.den as i128) - (b.num[i] as i128) * (a.den as i128);
        let side: u128 = if t < 0 {
            (-t) as u128
        } else {
            t as u128
        };
        assert(side * side == scaled_gap(a@, b@, i as int) * scaled_gap(a@, b@, i as int))
            by (nonlinear_arith)
            requires
                side == scaled_gap(a@, b@, i as int) || side == -scaled_gap(a@, b@, i as int),
        ;
        let square: u128 = match side.checked_mul(side) {
            Some(sq) => sq,
            None => {
                return None;
            },
        };
        total = match total.checked_add(square) {
            Some(sum) => sum,
            None => {
                return None;
            },
        };
        i += 1;
    }
    proof {
        lemma_gap_bound(0, a@.den, 0, b@.den);
    }
    let scale: u128 = (a.den as u128) * (b.den as u128);
    Some(Fraction { num: total, den: scale * scale })
}

/// The class of a cell tuple: the index of the nearest centre, the lowest
/// index winning among equally near centres.
pub fn nearest_class(value: &Vec<i64>, centroids: &Vec<Centroid>) -> (class: usize)
    requires
        centroids@.len() >= 1,
        value@.len() <= BAND_LIMIT,
        samples_ok(value@),
        centroids_wf(centroid_views(centroids@), value@.len()),
    ensures
        class == nearest(value@, centroid_views(centroids@)),
        class < centroids@.len(),
{
    let ghost cs = centroid_views(centroids@);
    let mut best: usize = 0;
    let mut a: usize = 1;
    while a < centroids.len()
        invariant
            1 <= a <= centroids@.len(),
            best < a,
            value@.len() <= BAND_LIMIT,
            samples_ok(value@),
            cs == centroid_views(centroids@),
            centroids_wf(cs, value@.len()),
            best == nearest_among(value@, cs, a as int),
        decreases centroids@.len() - a,
    {
        assert(cs[a as int].wf(value@.len()));
        assert(cs[best as int].wf(value@.len()));
        if is_nearer(value, &centroids[a], &centroids[best]) {
            best = a;
        }
        a += 1;
    }
    best
}

} // verus!
