//! Counting valid cells, and the law that the class sizes of an assignment
//! add up to that count.

use crate::assign::{label_at, row_stat};
use crate::band::{cell_tuple, cell_valid, stack_columns, stack_rows};
use crate::centroid::{lemma_nearest_among_bounds, CentroidView};
use crate::fold::{
    fold_all, lemma_seq_sum_add, lemma_seq_sum_indicator, lemma_seq_sum_zero, masked_fold, seq_sum,
    Fold,
};
use crate::grid::GridView;
use crate::stats::Stat;
use crate::step::{row_values, total_stat};
use vstd::prelude::*;

verus! {

/// The number of valid cells among the first `n` cells of a row.
pub open spec fn row_valid(g: Seq<GridView>, row: int, n: int) -> int
    decreases n,
{
    if n <= 0 {
        0
    } else {
        row_valid(g, row, n - 1) + if cell_valid(g, row, n - 1) {
            1int
        } else {
            0int
        }
    }
}

/// Per row, the number of valid cells.
pub open spec fn valid_values(g: Seq<GridView>) -> Seq<int> {
    Seq::new(stack_rows(g), |r: int| row_valid(g, r, stack_columns(g) as int))
}

/// The number of valid cells of a stack.
pub open spec fn valid_count(g: Seq<GridView>) -> int {
    fold_all(Fold::Add, 0, valid_values(g))
}

/// The size of every class under the centres `cs`.
pub open spec fn class_counts(g: Seq<GridView>, cs: Seq<CentroidView>) -> Seq<int> {
    Seq::new(cs.len(), |a: int| total_stat(g, cs, a, Stat::Count))
}

/// Within a row, the class sizes add up to the number of valid cells.
proof fn lemma_row_census(g: Seq<GridView>, cs: Seq<CentroidView>, row: int, n: int)
    requires
        cs.len() >= 1,
    ensures
        seq_sum(
            Seq::new(cs.len(), |a: int| row_stat(g, cs, row, a, Stat::Count, n)),
            cs.len() as int,
        ) == row_valid(g, row, n),
    decreases n,
{
    let k = cs.len();
    let z = Seq::new(k, |a: int| row_stat(g, cs, row, a, Stat::Count, n));
    if n <= 0 {
        lemma_seq_sum_zero(z, k as int);
    } else {
        lemma_row_census(g, cs, row, n - 1);
        let x = Seq::new(k, |a: int| row_stat(g, cs, row, a, Stat::Count, n - 1));
        let hit: int = match label_at(g, cs, row, n - 1) {
            Some(a) => a,
            None => -1,
        };
        let y = Seq::new(
            k,
            |a: int|
                if a == hit {
                    1int
                } else {
                    0int
                },
        );
        if cell_valid(g, row, n - 1) {
            lemma_nearest_among_bounds(cell_tuple(g, row, n - 1), cs, k as int);
        }
        lemma_seq_sum_indicator(y, k as int, hit);
        lemma_seq_sum_add(x, y, z, k as int);
    }
}

/// Over the first `m` rows, the class sizes add up to the number of valid
/// cells.
proof fn lemma_rows_census(g: Seq<GridView>, cs: Seq<CentroidView>, m: int)
    requires
        cs.len() >= 1,
        m <= stack_rows(g),
    ensures
        seq_sum(
            Seq::new(
                cs.len(),
                |a: int|
                    masked_fold(
                        Fold::Add,
                        0,
                        row_values(g, cs, a, Stat::Count),
                        Seq::new(stack_rows(g), |r: int| true),
                        m,
                    ),
            ),
            cs.len() as int,
        ) == masked_fold(
            Fold::Add,
            0,
            valid_values(g),
            Seq::new(stack_rows(g), |r: int| true),
            m,
        ),
    decreases m,
{
    let k = cs.len();
    let all = Seq::new(stack_rows(g), |r: int| true);
    let z = Seq::new(
        k,
        |a: int| masked_fold(Fold::Add, 0, row_values(g, cs, a, Stat::Count), all, m),
    );
    if m <= 0 {
        lemma_seq_sum_zero(z, k as int);
    } else {
        lemma_rows_census(g, cs, m - 1);
        lemma_row_census(g, cs, m - 1, stack_columns(g) as int);
        let x = Seq::new(
            k,
            |a: int| masked_fold(Fold::Add, 0, row_values(g, cs, a, Stat::Count), all, m - 1),
        );
        let y = Seq::new(
            k,
            |a: int| row_stat(g, cs, m - 1, a, Stat::Count, stack_columns(g) as int),
        );
        lemma_seq_sum_add(x, y, z, k as int);
    }
}

/// Under any centres, the sizes of the classes add up to the number of valid
/// cells: every valid cell belongs to exactly one class.
pub proof fn lemma_class_sizes_sum_to_valid_cells(g: Seq<GridView>, cs: Seq<CentroidView>)
    requires
        cs.len() >= 1,
    ensures
        seq_sum(class_counts(g, cs), cs.len() as int) == valid_count(g),
{
    lemma_rows_census(g, cs, stack_rows(g) as int);
    let all = Seq::new(stack_rows(g), |r: int| true);
    let z = Seq::new(
        cs.len(),
        |a: int|
            masked_fold(
                Fold::Add,
                0,
                row_values(g, cs, a, Stat::Count),
                all,
                stack_rows(g) as int,
            ),
    );
    assert forall|a: int| 0 <= a < cs.len() implies z[a] == class_counts(g, cs)[a] by {
        assert(row_values(g, cs, a, Stat::Count).len() == stack_rows(g));
    }
    assert(z =~= class_counts(g, cs));
    assert(valid_values(g).len() == stack_rows(g));
}

} // verus!
