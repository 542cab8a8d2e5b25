//! Partitioning the rows of a grid over a pool of workers.
//!
//! Two schemes are offered. Under either, every row has exactly one owner, so
//! a pass in which each worker handles the rows it owns covers every row
//! once.

use vstd::arithmetic::div_mod::{
    lemma_fundamental_div_mod, lemma_fundamental_div_mod_converse, lemma_mod_add_multiples_vanish,
    lemma_mod_pos_bound,
};
use vstd::prelude::*;

verus! {

/// How rows are shared out.
#[derive(Clone, Copy, Debug)]
pub enum Partition {
    /// Worker `t` owns the rows `r` with `r % workers == t`.
    Striped,
    /// Worker `t` owns a contiguous block of `block_len` rows.
    Block,
}

/// The length of a block: `rows / workers`, rounded up.
pub open spec fn block_len(rows: int, workers: int) -> int {
    rows / workers + if rows % workers == 0 {
        0int
    } else {
        1int
    }
}

/// The worker that owns `row`.
pub open spec fn owner(scheme: Partition, rows: int, workers: int, row: int) -> int {
    match scheme {
        Partition::Striped => row % workers,
        Partition::Block => row / block_len(rows, workers),
    }
}

/// Whether `row` occurs in a list of rows.
pub open spec fn listed(list: Seq<usize>, row: int) -> bool {
    exists|j: int| 0 <= j < list.len() && list[j] == row
}

/// Exactly the rows of one worker, in rising order.
pub open spec fn is_share(
    list: Seq<usize>,
    scheme: Partition,
    rows: int,
    workers: int,
    worker: int,
) -> bool {
    &&& forall|i: int, j: int| 0 <= i < j < list.len() ==> list[i] < list[j]
    &&& forall|j: int|
        0 <= j < list.len() ==> (#[trigger] list[j]) < rows && owner(
            scheme,
            rows,
            workers,
            list[j] as int,
        ) == worker
    &&& forall|r: int|
        0 <= r < rows && owner(scheme, rows, workers, r) == worker ==> #[trigger] listed(list, r)
}

/// The blocks of all workers together are long enough for all rows.
pub proof fn lemma_blocks_cover(rows: int, workers: int)
    requires
        0 <= rows,
        1 <= workers,
    ensures
        0 <= block_len(rows, workers),
        rows <= block_len(rows, workers) * workers,
        rows >= 1 ==> block_len(rows, workers) >= 1,
{
    lemma_fundamental_div_mod(rows, workers);
    lemma_mod_pos_bound(rows, workers);
    let q = rows / workers;
    let m = rows % workers;
    assert(0 <= q) by (nonlinear_arith)
        requires
            rows == workers * q + m,
            0 <= rows,
            0 <= m < workers,
    ;
    assert((q + 1) * workers == q * workers + workers) by (nonlinear_arith);
    assert(workers * q == q * workers) by (nonlinear_arith);
    assert(q == 0 ==> workers * q == 0) by (nonlinear_arith);
}

/// A row lies in block `t` exactly when `t` is its quotient by the block
/// length.
pub proof fn lemma_block_of_row(row: int, len: int, t: int)
    requires
        0 <= row,
        1 <= len,
    ensures
        (row / len == t) <==> (t * len <= row < (t + 1) * len),
{
    lemma_fundamental_div_mod(row, len);
    lemma_mod_pos_bound(row, len);
    let q = row / len;
    assert(q * len == len * q) by (nonlinear_arith);
    assert((q + 1) * len == q * len + len) by (nonlinear_arith);
    if t * len <= row < (t + 1) * len {
        assert((t + 1) * len == t * len + len) by (nonlinear_arith);
        lemma_fundamental_div_mod_converse(row, len, t, row - t * len);
    }
}

/// Every row has an owner among the workers. Since the owner is a function
/// of the row, no row has two.
pub proof fn lemma_every_row_owned(scheme: Partition, rows: int, workers: int, row: int)
    requires
        1 <= workers,
        0 <= row < rows,
    ensures
        0 <= owner(scheme, rows, workers, row) < workers,
{
    match scheme {
        Partition::Striped => {
            lemma_mod_pos_bound(row, workers);
        },
        Partition::Block => {
            lemma_blocks_cover(rows, workers);
            let len = block_len(rows, workers);
            let t = row / len;
            lemma_block_of_row(row, len, t);
            assert(0 <= t) by (nonlinear_arith)
                requires
                    row < (t + 1) * len,
                    0 <= row,
                    1 <= len,
            ;
            assert(t < workers) by (nonlinear_arith)
                requires
                    t * len <= row,
                    row < rows,
                    rows <= len * workers,
                    1 <= len,
            ;
        },
    }
}

/// The shares of the workers part the rows: every row is in the share of
/// its owner, and in no other.
pub proof fn lemma_shares_part_the_rows(
    scheme: Partition,
    rows: int,
    workers: int,
    row: int,
    worker: int,
    share: Seq<usize>,
)
    requires
        1 <= workers,
        0 <= row < rows,
        0 <= worker < workers,
        is_share(share, scheme, rows, workers, worker),
    ensures
        0 <= owner(scheme, rows, workers, row) < workers,
        listed(share, row) <==> owner(scheme, rows, workers, row) == worker,
{
    lemma_every_row_owned(scheme, rows, workers, row);
    if listed(share, row) {
        let j = choose|j: int| 0 <= j < share.len() && share[j] == row;
        assert(owner(scheme, rows, workers, share[j] as int) == worker);
    }
}

/// Two rows with one remainder that lie less than the divisor apart are one
/// row.
proof fn lemma_same_residue_close(row: int, next: int, workers: int)
    requires
        1 <= workers,
        0 <= row <= next < row + workers,
        row % workers == next % workers,
    ensures
        row == next,
{
    lemma_fundamental_div_mod(row, workers);
    lemma_fundamental_div_mod(next, workers);
    let a = row / workers;
    let b = next / workers;
    assert(next - row == workers * (b - a)) by (nonlinear_arith)
        requires
            row == workers * a + row % workers,
            next == workers * b + next % workers,
            row % workers == next % workers,
    ;
    assert(b - a == 0) by (nonlinear_arith)
        requires
            0 <= workers * (b - a) < workers,
            1 <= workers,
    ;
}

/// The rows that a worker owns under the striped scheme.
fn striped_share(rows: usize, workers: usize, worker: usize) -> (list: Vec<usize>)
    requires
        1 <= workers,
        worker < workers,
    ensures
        is_share(list@, Partition::Striped, rows as int, workers as int, worker as int),
{
    let mut list: Vec<usize> = Vec::new();
    let mut row: usize = worker;
    let mut more: bool = true;
    proof {
        vstd::arithmetic::div_mod::lemma_small_mod(worker as nat, workers as nat);
        assert forall|r: int|
            0 <= r < rows && r < row && r % (workers as int) == worker implies #[trigger] listed(
            list@,
            r,
        ) by {
            vstd::arithmetic::div_mod::lemma_small_mod(r as nat, workers as nat);
        }
    }
    while more && row < rows
        invariant
            1 <= workers,
            worker < workers,
            more ==> row % workers == worker,
            forall|i: int, j: int| 0 <= i < j < list@.len() ==> list@[i] < list@[j],
            forall|j: int|
                0 <= j < list@.len() ==> (#[trigger] list@[j]) < rows && list@[j] % workers
                    == worker,
            more ==> forall|j: int| 0 <= j < list@.len() ==> (#[trigger] list@[j]) < row,
            more ==> forall|r: int|
                0 <= r < rows && r < row && r % (workers as int) == worker ==> #[trigger] listed(
                    list@,
                    r,
                ),
            !more ==> forall|r: int|
                0 <= r < rows && r % (workers as int) == worker ==> #[trigger] listed(list@, r),
        decreases
                (if more && row < rows {
                    rows - row
                } else {
                    0
                }),
    {
        let ghost before = list@;
        list.push(row);
        assert(forall|r: int| listed(before, r) ==> listed(list@, r)) by {
            assert forall|r: int| listed(before, r) implies listed(list@, r) by {
                let j = choose|j: int| 0 <= j < before.len() && before[j] == r;
                assert(list@[j] == r);
            }
        }
        assert(listed(list@, row as int)) by {
            assert(list@[list@.len() - 1] == row);
        }
        let next: Option<usize> = row.checked_add(workers);
        match next {
            Some(n) => {
                proof {
                    lemma_mod_add_multiples_vanish(row as int, workers as int);
                    assert forall|r: int|
                        0 <= r < rows && r < n && r % (workers as int) == worker implies #[trigger] listed(
                        list@,
                        r,
                    ) by {
                        if r >= row {
                            lemma_same_residue_close(row as int, r, workers as int);
                        } else {
                            assert(listed(before, r));
                        }
                    }
                }
                row = n;
            },
            None => {
                proof {
                    assert forall|r: int|
                        0 <= r < rows && r % (workers as int) == worker implies #[trigger] listed(
                        list@,
                        r,
                    ) by {
                        if r >= row {
                            lemma_same_residue_close(row as int, r, workers as int);
                        } else {
                            assert(listed(before, r));
                        }
                    }
                }
                more = false;
            },
        }
    }
    list
}

/// The length of a block.
pub fn block_length(rows: usize, workers: usize) -> (len: usize)
    requires
        1 <= workers,
    ensures
        len == block_len(rows as int, workers as int),
{
    proof {
        lemma_blocks_cover(rows as int, workers as int);
        lemma_fundamental_div_mod(rows as int, workers as int);
        lemma_mod_pos_bound(rows as int, workers as int);
        let q = rows as int / workers as int;
        assert(q <= rows) by (nonlinear_arith)
            requires
                rows == workers * q + rows as int % workers as int,
                0 <= rows as int % workers as int,
                1 <= workers,
                0 <= q,
        ;
        if rows % workers != 0 {
            assert(q < rows) by (nonlinear_arith)
                requires
                    rows == workers * q + rows as int % workers as int,
                    0 < rows as int % workers as int,
                    1 <= workers,
                    0 <= q,
            ;
        }
    }
    if rows % workers == 0 {
        rows / workers
    } else {
        rows / workers + 1
    }
}

/// The rows that a worker owns under the block scheme.
fn block_share(rows: usize, workers: usize, worker: usize) -> (list: Vec<usize>)
    requires
        1 <= workers,
        worker < workers,
    ensures
        is_share(list@, Partition::Block, rows as int, workers as int, worker as int),
{
    let mut list: Vec<usize> = Vec::new();
    if rows == 0 {
        return list;
    }
    proof {
        lemma_blocks_cover(rows as int, workers as int);
    }
    let len: usize = block_length(rows, workers);
    let first: usize = match worker.checked_mul(len) {
        Some(f) => if f < rows {
            f
        } else {
            rows
        },
        None => rows,
    };
    let end: usize = if rows - first > len {
        first + len
    } else {
        rows
    };
    proof {
        assert((worker + 1) * len == worker * len + len) by (nonlinear_arith);
        assert forall|r: int| 0 <= r < rows implies ((#[trigger] (r / (len as int)) == worker)
            <==> (first <= r < end)) by {
            lemma_block_of_row(r, len as int, worker as int);
        }
    }
    let mut row: usize = first;
    while row < end
        invariant
            first <= row <= end <= rows,
            1 <= len,
            len == block_len(rows as int, workers as int),
            forall|r: int|
                0 <= r < rows ==> ((#[trigger] (r / (len as int)) == worker) <==> (first <= r
                    < end)),
            forall|i: int, j: int| 0 <= i < j < list@.len() ==> list@[i] < list@[j],
            forall|j: int| 0 <= j < list@.len() ==> first <= (#[trigger] list@[j]) < row,
            forall|r: int| first <= r < row ==> #[trigger] listed(list@, r),
        decreases end - row,
    {
        let ghost before = list@;
        list.push(row);
        assert forall|r: int| first <= r < row + 1 implies #[trigger] listed(list@, r) by {
            if r < row {
                assert(listed(before, r));
                let j = choose|j: int| 0 <= j < before.len() && before[j] == r;
                assert(list@[j] == r);
            } else {
                assert(list@[list@.len() - 1] == row);
            }
        }
        row += 1;
    }
    list
}

/// The rows that `worker` owns, in rising order.
pub fn worker_rows(scheme: Partition, rows: usize, workers: usize, worker: usize) -> (list: Vec<
    usize,
>)
    requires
        1 <= workers,
        worker < workers,
    ensures
        is_share(list@, scheme, rows as int, workers as int, worker as int),
{
    match scheme {
        Partition::Striped => striped_share(rows, workers, worker),
        Partition::Block => block_share(rows, workers, worker),
    }
}

/// The number of workers that the machine offers, as `num_cpus::get` reports
/// it. The count differs from machine to machine; it is never below one.
#[verifier::external_body]
pub(crate) fn available_workers() -> (workers: usize)
    ensures
        workers >= 1,
{
    num_cpus::get()
}

} // verus!
