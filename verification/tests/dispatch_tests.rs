use image_analysis::dispatch::{block_length, worker_rows, Partition};

#[test]
fn striped_worker_owns_every_nth_row() {
    assert_eq!(worker_rows(Partition::Striped, 10, 3, 0), vec![0, 3, 6, 9]);
    assert_eq!(worker_rows(Partition::Striped, 10, 3, 1), vec![1, 4, 7]);
    assert_eq!(worker_rows(Partition::Striped, 10, 3, 2), vec![2, 5, 8]);
}

#[test]
fn block_worker_owns_a_contiguous_range() {
    assert_eq!(worker_rows(Partition::Block, 10, 3, 0), vec![0, 1, 2, 3]);
    assert_eq!(worker_rows(Partition::Block, 10, 3, 1), vec![4, 5, 6, 7]);
    assert_eq!(worker_rows(Partition::Block, 10, 3, 2), vec![8, 9]);
}

#[test]
fn block_length_rounds_up() {
    assert_eq!(block_length(10, 3), 4);
    assert_eq!(block_length(9, 3), 3);
    assert_eq!(block_length(1, 8), 1);
    assert_eq!(block_length(0, 4), 0);
}

#[test]
fn more_workers_than_rows_leaves_some_idle() {
    assert_eq!(worker_rows(Partition::Block, 2, 4, 0), vec![0]);
    assert_eq!(worker_rows(Partition::Block, 2, 4, 1), vec![1]);
    assert_eq!(worker_rows(Partition::Block, 2, 4, 2), Vec::<usize>::new());
    assert_eq!(worker_rows(Partition::Block, 2, 4, 3), Vec::<usize>::new());
    assert_eq!(worker_rows(Partition::Striped, 2, 4, 1), vec![1]);
    assert_eq!(worker_rows(Partition::Striped, 2, 4, 3), Vec::<usize>::new());
}

#[test]
fn no_rows_gives_empty_shares() {
    assert_eq!(worker_rows(Partition::Block, 0, 3, 1), Vec::<usize>::new());
    assert_eq!(worker_rows(Partition::Striped, 0, 3, 1), Vec::<usize>::new());
}

#[test]
fn one_worker_owns_all_rows() {
    assert_eq!(worker_rows(Partition::Block, 4, 1, 0), vec![0, 1, 2, 3]);
    assert_eq!(worker_rows(Partition::Striped, 4, 1, 0), vec![0, 1, 2, 3]);
}

fn covers_each_row_once(scheme: Partition, rows: usize, workers: usize) {
    let mut seen: Vec<usize> = vec![0; rows];
    for t in 0..workers {
        for r in worker_rows(scheme, rows, workers, t) {
            seen[r] += 1;
        }
    }
    for r in 0..rows {
        assert_eq!(seen[r], 1);
    }
}

#[test]
fn every_row_has_exactly_one_owner() {
    for rows in 0..40 {
        for workers in 1..9 {
            covers_each_row_once(Partition::Striped, rows, workers);
            covers_each_row_once(Partition::Block, rows, workers);
        }
    }
}

#[test]
fn rows_near_the_largest_index_do_not_overflow() {
    let rows = usize::MAX;
    let last = worker_rows(Partition::Block, rows, rows, rows - 1);
    assert_eq!(last, vec![rows - 1]);
}
