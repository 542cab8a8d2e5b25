//! Order-independent folds of per-row results.
//!
//! Row results reach the aggregator in any order. What it has accumulated at
//! any moment is the fold of the rows received so far, whichever order they
//! came in.

use vstd::prelude::*;

verus! {

/// How per-row results combine.
pub enum Fold {
    /// Results add up.
    Add,
    /// The smallest result is kept.
    Least,
    /// The largest result is kept.
    Greatest,
}

/// Two results combined.
pub open spec fn combine(op: Fold, x: int, y: int) -> int {
    match op {
        Fold::Add => x + y,
        Fold::Least => if y < x {
            y
        } else {
            x
        },
        Fold::Greatest => if y > x {
            y
        } else {
            x
        },
    }
}

/// The fold, from `start`, of the values of those of the first `m` rows that
/// are marked in `done`.
pub open spec fn masked_fold(op: Fold, start: int, vals: Seq<int>, done: Seq<bool>, m: int) -> int
    decreases m,
{
    if m <= 0 {
        start
    } else {
        let before = masked_fold(op, start, vals, done, m - 1);
        if done[m - 1] {
            combine(op, before, vals[m - 1])
        } else {
            before
        }
    }
}

/// The fold, from `start`, of all values.
pub open spec fn fold_all(op: Fold, start: int, vals: Seq<int>) -> int {
    masked_fold(op, start, vals, Seq::new(vals.len(), |r: int| true), vals.len() as int)
}

/// Marking one more row folds its value in, wherever the row stands.
pub proof fn lemma_mark_row(op: Fold, start: int, vals: Seq<int>, done: Seq<bool>, row: int, m: int)
    requires
        0 <= row < done.len(),
        m <= done.len(),
        !done[row],
    ensures
        masked_fold(op, start, vals, done.update(row, true), m) == if row < m {
            combine(op, masked_fold(op, start, vals, done, m), vals[row])
        } else {
            masked_fold(op, start, vals, done, m)
        },
    decreases m,
{
    if m > 0 {
        lemma_mark_row(op, start, vals, done, row, m - 1);
    }
}

/// With no row marked the fold is its start.
pub proof fn lemma_fold_none(op: Fold, start: int, vals: Seq<int>, done: Seq<bool>, m: int)
    requires
        m <= done.len(),
        forall|r: int| 0 <= r < m ==> !done[r],
    ensures
        masked_fold(op, start, vals, done, m) == start,
    decreases m,
{
    if m > 0 {
        lemma_fold_none(op, start, vals, done, m - 1);
    }
}

/// A sum of values between `lo` and `hi` lies between the same multiples of
/// the number of rows.
pub proof fn lemma_sum_bounds(vals: Seq<int>, done: Seq<bool>, m: int, lo: int, hi: int)
    requires
        0 <= m <= done.len(),
        m <= vals.len(),
        lo <= 0 <= hi,
        forall|r: int| 0 <= r < m ==> lo <= #[trigger] vals[r] <= hi,
    ensures
        m * lo <= masked_fold(Fold::Add, 0, vals, done, m) <= m * hi,
    decreases m,
{
    if m > 0 {
        lemma_sum_bounds(vals, done, m - 1, lo, hi);
        assert((m - 1) * lo + lo == m * lo) by (nonlinear_arith);
        assert((m - 1) * hi + hi == m * hi) by (nonlinear_arith);
        assert(lo <= vals[m - 1] <= hi);
    } else {
        assert(m * lo == 0 && m * hi == 0) by (nonlinear_arith)
            requires
                m == 0,
        ;
    }
}

/// The sum of the first `n` entries.
pub open spec fn seq_sum(vals: Seq<int>, n: int) -> int
    decreases n,
{
    if n <= 0 {
        0
    } else {
        seq_sum(vals, n - 1) + vals[n - 1]
    }
}

/// The sum of entrywise sums is the sum of the sums.
pub proof fn lemma_seq_sum_add(x: Seq<int>, y: Seq<int>, z: Seq<int>, n: int)
    requires
        n <= x.len(),
        n <= y.len(),
        n <= z.len(),
        forall|a: int| 0 <= a < n ==> z[a] == x[a] + y[a],
    ensures
        seq_sum(z, n) == seq_sum(x, n) + seq_sum(y, n),
    decreases n,
{
    if n > 0 {
        lemma_seq_sum_add(x, y, z, n - 1);
    }
}

/// Entries that are all zero sum to zero.
pub proof fn lemma_seq_sum_zero(x: Seq<int>, n: int)
    requires
        n <= x.len(),
        forall|a: int| 0 <= a < n ==> x[a] == 0,
    ensures
        seq_sum(x, n) == 0,
    decreases n,
{
    if n > 0 {
        lemma_seq_sum_zero(x, n - 1);
    }
}

/// Entries that single out one index sum to one.
pub proof fn lemma_seq_sum_indicator(x: Seq<int>, n: int, hit: int)
    requires
        n <= x.len(),
        forall|a: int| 0 <= a < n ==> x[a] == (if a == hit { 1int } else { 0int }),
    ensures
        seq_sum(x, n) == (if 0 <= hit < n { 1int } else { 0int }),
    decreases n,
{
    if n > 0 {
        lemma_seq_sum_indicator(x, n - 1, hit);
    }
}

} // verus!
