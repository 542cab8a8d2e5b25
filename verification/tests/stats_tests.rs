use image_analysis::aggregate::{count_changes, same_label, Aggregator};
use image_analysis::assign::{assign_row, empty_stats, RowAssignment};
use image_analysis::band::Band;
use image_analysis::centroid::Centroid;
use image_analysis::grid::Grid;
use image_analysis::stats::ClassStats;

#[test]
fn empty_stats_hold_no_cells() {
    let s = ClassStats::empty(2);
    assert_eq!(s.count, 0);
    assert_eq!(s.sum, vec![0, 0]);
    assert_eq!(s.least, vec![0x8000_0000, 0x8000_0000]);
    assert_eq!(s.greatest, vec![-0x8000_0000, -0x8000_0000]);
}

#[test]
fn add_cell_updates_every_statistic() {
    let mut s = ClassStats::empty(2);
    s.add_cell(&vec![5, -3]);
    s.add_cell(&vec![2, 8]);
    assert_eq!(s.count, 2);
    assert_eq!(s.sum, vec![7, 5]);
    assert_eq!(s.least, vec![2, -3]);
    assert_eq!(s.greatest, vec![5, 8]);
}

#[test]
fn merge_combines_two_sets_of_cells() {
    let mut a = ClassStats::empty(1);
    a.add_cell(&vec![4]);
    a.add_cell(&vec![6]);
    let mut b = ClassStats::empty(1);
    b.add_cell(&vec![1]);
    b.add_cell(&vec![9]);
    b.add_cell(&vec![5]);
    a.merge(&b);
    assert_eq!(a.count, 5);
    assert_eq!(a.sum, vec![25]);
    assert_eq!(a.least, vec![1]);
    assert_eq!(a.greatest, vec![9]);
}

#[test]
fn merge_with_empty_changes_nothing() {
    let mut a = ClassStats::empty(1);
    a.add_cell(&vec![4]);
    a.merge(&ClassStats::empty(1));
    assert_eq!(a.count, 1);
    assert_eq!(a.sum, vec![4]);
    assert_eq!(a.least, vec![4]);
    assert_eq!(a.greatest, vec![4]);
}

#[test]
fn same_label_compares_classes() {
    assert!(same_label(Some(1), Some(1)));
    assert!(!same_label(Some(1), Some(2)));
    assert!(!same_label(None, Some(2)));
    assert!(!same_label(Some(2), None));
    assert!(same_label(None, None));
}

#[test]
fn count_changes_counts_cells_with_a_new_class() {
    let before = vec![None, Some(0), Some(1), Some(1), None];
    let after = vec![Some(0), Some(0), Some(0), Some(1), None];
    assert_eq!(count_changes(&before, &after), 2);
    assert_eq!(count_changes(&after, &after), 0);
}

#[test]
fn count_changes_ignores_cells_that_lose_their_class() {
    let before = vec![Some(0), Some(1)];
    let after = vec![None, None];
    assert_eq!(count_changes(&before, &after), 0);
}

fn two_bands() -> Vec<Band> {
    let a = Grid::from_rows(-1, vec![vec![0, 10, -1, 10], vec![0, 0, 10, 0]]).unwrap();
    let b = Grid::from_rows(-1, vec![vec![0, 20, 20, 18], vec![2, -1, 20, 0]]).unwrap();
    vec![Band::new(a, 0, 10).unwrap(), Band::new(b, 0, 20).unwrap()]
}

fn two_centres() -> Vec<Centroid> {
    vec![Centroid { num: vec![0, 0], den: 1 }, Centroid { num: vec![10, 20], den: 1 }]
}

#[test]
fn assign_row_labels_valid_cells_only() {
    let r = assign_row(&two_bands(), &two_centres(), 0);
    assert_eq!(r.row, 0);
    assert_eq!(r.labels, vec![Some(0), Some(1), None, Some(1)]);
    let r = assign_row(&two_bands(), &two_centres(), 1);
    assert_eq!(r.row, 1);
    assert_eq!(r.labels, vec![Some(0), None, Some(1), Some(0)]);
}

#[test]
fn assign_row_gathers_the_statistics_of_each_class() {
    let r = assign_row(&two_bands(), &two_centres(), 0);
    assert_eq!(r.stats.len(), 2);
    assert_eq!(r.stats[0].count, 1);
    assert_eq!(r.stats[0].sum, vec![0, 0]);
    assert_eq!(r.stats[1].count, 2);
    assert_eq!(r.stats[1].sum, vec![20, 38]);
    assert_eq!(r.stats[1].least, vec![10, 18]);
    assert_eq!(r.stats[1].greatest, vec![10, 20]);
}

#[test]
fn aggregator_takes_rows_in_any_order() {
    let bands = two_bands();
    let cs = two_centres();
    let mut forward = Aggregator::new(2, 2, 2);
    let mut labels_f: Vec<Vec<Option<usize>>> = vec![vec![None; 4]; 2];
    assert!(forward.accept(&mut labels_f, 2, assign_row(&bands, &cs, 0)));
    assert!(forward.accept(&mut labels_f, 2, assign_row(&bands, &cs, 1)));
    let mut backward = Aggregator::new(2, 2, 2);
    let mut labels_b: Vec<Vec<Option<usize>>> = vec![vec![None; 4]; 2];
    assert!(backward.accept(&mut labels_b, 2, assign_row(&bands, &cs, 1)));
    assert!(backward.accept(&mut labels_b, 2, assign_row(&bands, &cs, 0)));
    assert_eq!(labels_f, labels_b);
    assert_eq!(forward.changed, 6);
    assert_eq!(backward.changed, 6);
    for a in 0..2 {
        assert_eq!(forward.stats[a].count, backward.stats[a].count);
        assert_eq!(forward.stats[a].sum, backward.stats[a].sum);
        assert_eq!(forward.stats[a].least, backward.stats[a].least);
        assert_eq!(forward.stats[a].greatest, backward.stats[a].greatest);
    }
    assert_eq!(forward.stats[0].count, 3);
    assert_eq!(forward.stats[1].count, 3);
    assert_eq!(forward.stats[0].sum, vec![0, 2]);
    assert_eq!(forward.stats[1].sum, vec![30, 58]);
    assert_eq!(forward.received, vec![true, true]);
}

#[test]
fn aggregator_drops_a_row_it_has_already() {
    let bands = two_bands();
    let cs = two_centres();
    let mut agg = Aggregator::new(2, 2, 2);
    let mut labels: Vec<Vec<Option<usize>>> = vec![vec![None; 4]; 2];
    assert!(agg.accept(&mut labels, 2, assign_row(&bands, &cs, 0)));
    assert!(!agg.accept(&mut labels, 2, assign_row(&bands, &cs, 0)));
    assert_eq!(agg.changed, 3);
    assert_eq!(agg.stats[1].count, 2);
    assert_eq!(agg.received, vec![true, false]);
}

#[test]
fn aggregator_drops_a_row_outside_the_grid() {
    let mut agg = Aggregator::new(2, 2, 2);
    let mut labels: Vec<Vec<Option<usize>>> = vec![vec![None; 4]; 2];
    let stray = RowAssignment { row: 5, labels: vec![None; 4], stats: empty_stats(2, 2) };
    assert!(!agg.accept(&mut labels, 2, stray));
    let narrow = RowAssignment { row: 0, labels: vec![None; 3], stats: empty_stats(2, 2) };
    assert!(!agg.accept(&mut labels, 2, narrow));
    assert_eq!(agg.received, vec![false, false]);
}
