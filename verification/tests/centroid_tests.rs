use image_analysis::centroid::{
    is_nearer, nearest_class, scaled_distance_to, squared_separation, Centroid,
};
use image_analysis::update::{centroid_at, donor_accepted, mean_centroid};
use image_analysis::stats::ClassStats;

fn point(values: Vec<i64>) -> Centroid {
    Centroid { num: values, den: 1 }
}

#[test]
fn scaled_distance_to_a_point_is_the_squared_distance() {
    let c = point(vec![3, 4]);
    assert_eq!(scaled_distance_to(&vec![0, 0], &c), 25);
    assert_eq!(scaled_distance_to(&vec![3, 4], &c), 0);
    assert_eq!(scaled_distance_to(&vec![-1, 1], &c), 25);
}

#[test]
fn scaled_distance_carries_the_denominator_squared() {
    // The centre (5/2, 1/2): the distance from (0, 0) is 26/4.
    let c = Centroid { num: vec![5, 1], den: 2 };
    assert_eq!(scaled_distance_to(&vec![0, 0], &c), 26);
    assert_eq!(scaled_distance_to(&vec![1, 1], &c), 9 + 1);
}

#[test]
fn scaled_distance_holds_the_largest_samples() {
    let limit: i64 = 0x8000_0000;
    let c = Centroid { num: vec![-limit * 0x1000_0000], den: 0x1000_0000 };
    let d = scaled_distance_to(&vec![limit], &c);
    let side: u128 = 2 * (limit as u128) * 0x1000_0000;
    assert_eq!(d, side * side);
}

#[test]
fn nearer_compares_across_denominators() {
    // 7/2 against 4: the tuple (4) is nearer to 4, (3) is nearer to 7/2.
    let half = Centroid { num: vec![7], den: 2 };
    let whole = point(vec![4]);
    assert!(is_nearer(&vec![4], &whole, &half));
    assert!(!is_nearer(&vec![4], &half, &whole));
    assert!(is_nearer(&vec![3], &half, &whole));
    // 0 lies at the same distance from 1/3 as from -1/3.
    let tuple = vec![0];
    let left = Centroid { num: vec![1], den: 3 };
    let right = Centroid { num: vec![-1], den: 3 };
    assert!(!is_nearer(&tuple, &left, &right));
    assert!(!is_nearer(&tuple, &right, &left));
}

#[test]
fn nearest_class_picks_the_least_distance() {
    let cs = vec![point(vec![0, 0]), point(vec![10, 10]), point(vec![20, 20])];
    assert_eq!(nearest_class(&vec![1, 1], &cs), 0);
    assert_eq!(nearest_class(&vec![9, 12], &cs), 1);
    assert_eq!(nearest_class(&vec![100, 100], &cs), 2);
}

#[test]
fn nearest_class_gives_ties_to_the_lowest_index() {
    let cs = vec![point(vec![0]), point(vec![10]), point(vec![10])];
    assert_eq!(nearest_class(&vec![5], &cs), 0);
    assert_eq!(nearest_class(&vec![8], &cs), 1);
    let same = vec![point(vec![3]), point(vec![3])];
    assert_eq!(nearest_class(&vec![7], &same), 0);
}

#[test]
fn nearest_class_with_one_centre_is_that_centre() {
    let cs = vec![point(vec![5, 5])];
    assert_eq!(nearest_class(&vec![-100, 100], &cs), 0);
}

#[test]
fn centroid_at_is_a_whole_point() {
    let c = centroid_at(vec![4, -2]);
    assert_eq!(c.num, vec![4, -2]);
    assert_eq!(c.den, 1);
}

#[test]
fn mean_centroid_is_sum_over_count() {
    let mut stats = ClassStats::empty(2);
    stats.add_cell(&vec![1, 10]);
    stats.add_cell(&vec![2, 20]);
    stats.add_cell(&vec![4, 40]);
    let c = mean_centroid(&stats);
    assert_eq!(c.num, vec![7, 70]);
    assert_eq!(c.den, 3);
}

#[test]
fn donor_needs_more_members_than_its_threshold() {
    let mut big = ClassStats::empty(1);
    for v in 0..5 {
        big.add_cell(&vec![v]);
    }
    let small = ClassStats::empty(1);
    let stats = vec![small, big];
    assert!(donor_accepted(&stats, &vec![4, 4], 1));
    assert!(!donor_accepted(&stats, &vec![5, 5], 1));
    assert!(!donor_accepted(&stats, &vec![0, 0], 0));
}

#[test]
fn squared_separation_of_whole_points() {
    let d = squared_separation(&point(vec![0, 0]), &point(vec![3, 4])).unwrap();
    assert_eq!(d.num, 25);
    assert_eq!(d.den, 1);
    let same = squared_separation(&point(vec![7, -7]), &point(vec![7, -7])).unwrap();
    assert_eq!(same.num, 0);
    assert_eq!(same.den, 1);
}

#[test]
fn squared_separation_across_denominators() {
    // (1/2, 0) and (0, 1/3) lie 1/4 + 1/9 = 13/36 apart, squared.
    let a = Centroid { num: vec![1, 0], den: 2 };
    let b = Centroid { num: vec![0, 1], den: 3 };
    let d = squared_separation(&a, &b).unwrap();
    assert_eq!(d.num, 13);
    assert_eq!(d.den, 36);
    let back = squared_separation(&b, &a).unwrap();
    assert_eq!(back.num, 13);
    assert_eq!(back.den, 36);
}

#[test]
fn squared_separation_that_does_not_fit_is_withheld() {
    let limit: i64 = 0x8000_0000;
    let most: u64 = 0x1000_0000;
    let a = Centroid { num: vec![limit * (most as i64)], den: most };
    let b = Centroid { num: vec![-limit * (most as i64)], den: most };
    assert!(squared_separation(&a, &b).is_none());
    let near = Centroid { num: vec![limit * (most as i64) - 1], den: most };
    assert!(squared_separation(&a, &near).is_some());
}
