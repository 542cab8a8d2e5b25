use image_analysis::band::Band;
use image_analysis::centroid::Centroid;
use image_analysis::config::{check_extents, ConfigError, InitMode, KMeansClustering, Percent};
use image_analysis::dispatch::Partition;
use image_analysis::grid::Grid;
use image_analysis::init::{centroid_of_cell, diagonal_centroids, random_centroids};
use image_analysis::kmeans::{copy_centroids, has_converged, Phase};
use image_analysis::stats::ClassStats;
use image_analysis::step::assignment_step;
use image_analysis::update::{pick_donor, sample_within, update_centroids};
use rand::{SeedableRng, StdRng};

fn seeded(seed: usize) -> StdRng {
    let words: Vec<usize> = vec![seed, 17, 4711, 99];
    SeedableRng::from_seed(&words[..])
}

fn config(k: usize, min_class_size: usize) -> KMeansClustering {
    KMeansClustering {
        num_classes: k,
        max_iterations: 10,
        class_change: Percent { num: 2, den: 1 },
        initialize: InitMode::Diagonal,
        min_class_size,
    }
}

fn two_bands() -> Vec<Band> {
    let a = Grid::from_rows(-1, vec![vec![0, 0, 0], vec![0, 10, 10], vec![10, 10, 10]]).unwrap();
    let b = Grid::from_rows(-1, vec![vec![0, 0, 0], vec![0, 20, 20], vec![20, 20, 20]]).unwrap();
    vec![Band::new(a, 0, 10).unwrap(), Band::new(b, 0, 20).unwrap()]
}

#[test]
fn new_configuration_has_the_usual_settings() {
    let c = KMeansClustering::new();
    assert_eq!(c.num_classes, 0);
    assert_eq!(c.max_iterations, 10);
    assert_eq!(c.class_change.num, 5);
    assert_eq!(c.class_change.den, 1);
    assert_eq!(c.initialize, InitMode::Diagonal);
    assert_eq!(c.min_class_size, 10);
}

#[test]
fn valid_configuration_passes() {
    assert_eq!(config(2, 1).validate(2, 3, 3), Ok(()));
    assert_eq!(config(9, 1).validate(2, 3, 3), Ok(()));
    assert_eq!(config(2, 4).validate(2, 3, 3), Ok(()));
}

#[test]
fn one_class_is_a_configuration_error() {
    assert_eq!(config(1, 1).validate(2, 3, 3), Err(ConfigError::ClassesOutOfRange));
    assert_eq!(config(0, 0).validate(2, 3, 3), Err(ConfigError::ClassesOutOfRange));
}

#[test]
fn one_class_is_refused_before_any_sample_is_read() {
    let mut rng = seeded(1);
    let outcome = config(1, 1).run(&two_bands(), &mut rng);
    assert_eq!(outcome.err(), Some(ConfigError::ClassesOutOfRange));
}

#[test]
fn more_classes_than_cells_is_a_configuration_error() {
    assert_eq!(config(10, 0).validate(2, 3, 3), Err(ConfigError::ClassesOutOfRange));
    assert_eq!(config(2, 0).validate(2, 0, 5), Err(ConfigError::ClassesOutOfRange));
}

#[test]
fn too_large_a_minimum_class_size_is_a_configuration_error() {
    assert_eq!(config(2, 5).validate(2, 3, 3), Err(ConfigError::MinClassSizeTooLarge));
    assert_eq!(config(3, 4).validate(2, 3, 3), Err(ConfigError::MinClassSizeTooLarge));
    assert_eq!(config(3, 3).validate(2, 3, 3), Ok(()));
}

#[test]
fn too_large_a_minimum_class_size_is_refused_by_a_run() {
    let mut rng = seeded(1);
    let outcome = config(2, 5).run(&two_bands(), &mut rng);
    assert_eq!(outcome.err(), Some(ConfigError::MinClassSizeTooLarge));
}

#[test]
fn fewer_than_two_bands_is_a_configuration_error() {
    assert_eq!(config(2, 1).validate(1, 3, 3), Err(ConfigError::TooFewBands));
    assert_eq!(config(2, 1).validate(0, 0, 0), Err(ConfigError::TooFewBands));
    let mut rng = seeded(1);
    let mut one = two_bands();
    one.truncate(1);
    assert_eq!(config(2, 1).run(&one, &mut rng).err(), Some(ConfigError::TooFewBands));
    let none: Vec<Band> = Vec::new();
    assert_eq!(config(2, 1).run(&none, &mut rng).err(), Some(ConfigError::TooFewBands));
}

#[test]
fn iteration_budget_must_lie_within_2_and_250() {
    let mut c = config(2, 1);
    c.max_iterations = 1;
    assert_eq!(c.validate(2, 3, 3), Err(ConfigError::IterationsOutOfRange));
    c.max_iterations = 251;
    assert_eq!(c.validate(2, 3, 3), Err(ConfigError::IterationsOutOfRange));
    c.max_iterations = 2;
    assert_eq!(c.validate(2, 3, 3), Ok(()));
    c.max_iterations = 250;
    assert_eq!(c.validate(2, 3, 3), Ok(()));
}

#[test]
fn threshold_must_lie_within_0_and_25_percent() {
    let mut c = config(2, 1);
    c.class_change = Percent { num: 26, den: 1 };
    assert_eq!(c.validate(2, 3, 3), Err(ConfigError::ThresholdOutOfRange));
    c.class_change = Percent { num: 251, den: 10 };
    assert_eq!(c.validate(2, 3, 3), Err(ConfigError::ThresholdOutOfRange));
    c.class_change = Percent { num: 1, den: 0 };
    assert_eq!(c.validate(2, 3, 3), Err(ConfigError::ThresholdOutOfRange));
    c.class_change = Percent { num: 25, den: 1 };
    assert_eq!(c.validate(2, 3, 3), Ok(()));
    c.class_change = Percent { num: 0, den: 1 };
    assert_eq!(c.validate(2, 3, 3), Ok(()));
    c.class_change = Percent { num: u64::MAX, den: u64::MAX };
    assert_eq!(c.validate(2, 3, 3), Ok(()));
}

#[test]
fn too_many_bands_is_a_configuration_error() {
    assert_eq!(config(2, 1).validate(256, 3, 3), Err(ConfigError::TooManyBands));
    assert_eq!(config(2, 1).validate(255, 3, 3), Ok(()));
}

#[test]
fn too_many_cells_is_a_configuration_error() {
    assert_eq!(config(2, 1).validate(2, 1 << 15, 1 << 14), Err(ConfigError::GridTooLarge));
    assert_eq!(config(2, 1).validate(2, 1 << 14, 1 << 14), Ok(()));
    assert_eq!(
        config(2, 1).validate(2, usize::MAX, usize::MAX),
        Err(ConfigError::GridTooLarge)
    );
}

#[test]
fn the_first_fault_is_reported() {
    let mut c = config(1, 100);
    c.max_iterations = 0;
    c.class_change = Percent { num: 30, den: 1 };
    assert_eq!(c.validate(1, 3, 3), Err(ConfigError::TooFewBands));
    assert_eq!(c.validate(2, 3, 3), Err(ConfigError::IterationsOutOfRange));
    c.max_iterations = 5;
    assert_eq!(c.validate(2, 3, 3), Err(ConfigError::ThresholdOutOfRange));
    c.class_change = Percent { num: 3, den: 1 };
    assert_eq!(c.validate(2, 3, 3), Err(ConfigError::ClassesOutOfRange));
    c.num_classes = 2;
    assert_eq!(c.validate(2, 3, 3), Err(ConfigError::MinClassSizeTooLarge));
    assert_eq!(c.validate(300, 3, 3), Err(ConfigError::MinClassSizeTooLarge));
}

#[test]
fn bands_of_different_extent_are_a_configuration_error() {
    let a = Grid::from_rows(-1, vec![vec![0, 1], vec![2, 3]]).unwrap();
    let b = Grid::from_rows(-1, vec![vec![0, 1, 2], vec![2, 3, 4]]).unwrap();
    let bands = vec![Band::new(a, 0, 3).unwrap(), Band::new(b, 0, 4).unwrap()];
    assert_eq!(check_extents(&bands), Err(ConfigError::ExtentMismatch));
    let mut rng = seeded(1);
    assert_eq!(config(2, 1).run(&bands, &mut rng).err(), Some(ConfigError::ExtentMismatch));
    assert_eq!(check_extents(&two_bands()), Ok(()));
}

#[test]
fn diagonal_centres_spread_along_the_range() {
    let cs = diagonal_centroids(&two_bands(), 2);
    assert_eq!(cs.len(), 2);
    assert_eq!(cs[0].num, vec![0, 0]);
    assert_eq!(cs[0].den, 2);
    assert_eq!(cs[1].num, vec![10, 20]);
    assert_eq!(cs[1].den, 2);
}

#[test]
fn diagonal_centres_start_at_the_minimum() {
    let a = Grid::from_rows(-1, vec![vec![4, 7], vec![10, 5]]).unwrap();
    let b = Grid::from_rows(-1, vec![vec![-6, 0], vec![-3, 3]]).unwrap();
    let bands = vec![Band::new(a, 4, 10).unwrap(), Band::new(b, -6, 3).unwrap()];
    let cs = diagonal_centroids(&bands, 3);
    // Centre a in band i is (3 * min + a * (max - min)) / 3.
    assert_eq!(cs[0].num, vec![12, -18]);
    assert_eq!(cs[1].num, vec![18, -9]);
    assert_eq!(cs[2].num, vec![24, 0]);
    for c in &cs {
        assert_eq!(c.den, 3);
    }
}

#[test]
fn centre_of_a_cell_holds_its_samples() {
    let c = centroid_of_cell(&two_bands(), 1, 2);
    assert_eq!(c.num, vec![10, 20]);
    assert_eq!(c.den, 1);
    let c = centroid_of_cell(&two_bands(), 0, 0);
    assert_eq!(c.num, vec![0, 0]);
}

#[test]
fn random_centres_sit_on_cells() {
    let a = Grid::from_rows(-1, vec![vec![0, 1, 2, 3], vec![4, 5, 6, 7]]).unwrap();
    let b = Grid::from_rows(-1, vec![vec![0, 10, 20, 30], vec![40, 50, 60, 70]]).unwrap();
    let bands = vec![Band::new(a, 0, 7).unwrap(), Band::new(b, 0, 70).unwrap()];
    let mut rng = seeded(7);
    let cs = random_centroids(&bands, 200, &mut rng);
    assert_eq!(cs.len(), 200);
    let mut hit: Vec<bool> = vec![false; 8];
    for c in &cs {
        assert_eq!(c.den, 1);
        assert!(0 <= c.num[0] && c.num[0] <= 7);
        assert_eq!(c.num[1], 10 * c.num[0]);
        hit[c.num[0] as usize] = true;
    }
    let distinct = hit.iter().filter(|h| **h).count();
    assert!(distinct >= 4);
}

#[test]
fn converged_when_the_changed_share_is_strictly_below_the_threshold() {
    let two = Percent { num: 2, den: 1 };
    assert!(has_converged(1, 100, two));
    assert!(!has_converged(2, 100, two));
    assert!(!has_converged(3, 100, two));
    assert!(has_converged(0, 9, two));
    let one_and_a_half = Percent { num: 3, den: 2 };
    assert!(has_converged(14, 1000, one_and_a_half));
    assert!(!has_converged(15, 1000, one_and_a_half));
}

#[test]
fn never_converged_without_valid_cells_or_with_a_zero_threshold() {
    assert!(!has_converged(0, 0, Percent { num: 2, den: 1 }));
    assert!(!has_converged(0, 100, Percent { num: 0, den: 1 }));
    assert!(has_converged(u64::MAX, u64::MAX, Percent { num: u64::MAX, den: 1 }));
    assert!(!has_converged(u64::MAX, u64::MAX, Percent { num: 100, den: 1 }));
}

#[test]
fn two_class_run_on_a_three_by_three_grid() {
    let bands = two_bands();
    let mut rng = seeded(1);
    let state = config(2, 1).run(&bands, &mut rng).unwrap();
    assert_eq!(state.iterations, 2);
    assert_eq!(state.phase, Phase::Converged);
    assert_eq!(
        state.labels,
        vec![
            vec![Some(0), Some(0), Some(0)],
            vec![Some(0), Some(1), Some(1)],
            vec![Some(1), Some(1), Some(1)],
        ]
    );
    assert_eq!(state.class_n, vec![4, 5]);
    assert_eq!(state.valid_cells, 9);
    assert_eq!(state.changed_cells, 0);
    assert_eq!(state.centroids[0].num, vec![0, 0]);
    assert_eq!(state.centroids[0].den, 4);
    assert_eq!(state.centroids[1].num, vec![50, 100]);
    assert_eq!(state.centroids[1].den, 5);
    assert_eq!(state.assigned_from[1].num, vec![50, 100]);
    let grid = state.label_grid(-1);
    let want = vec![vec![1, 1, 1], vec![1, 2, 2], vec![2, 2, 2]];
    for r in 0..3 {
        for c in 0..3 {
            assert_eq!(grid.get(r, c), want[r][c]);
        }
    }
}

#[test]
fn first_iteration_assigns_from_the_diagonal_centres() {
    let bands = two_bands();
    let mut rng = seeded(1);
    let cfg = config(2, 1);
    let mut state = cfg.start(&bands, &mut rng).unwrap();
    assert_eq!(state.iterations, 0);
    assert_eq!(state.phase, Phase::Iterating);
    assert_eq!(state.labels, vec![vec![None; 3]; 3]);
    cfg.iterate(&bands, &mut state, &mut rng);
    assert_eq!(state.iterations, 1);
    assert_eq!(state.phase, Phase::Iterating);
    assert_eq!(state.changed_cells, 9);
    assert_eq!(state.valid_cells, 9);
    assert_eq!(state.class_n, vec![4, 5]);
    assert_eq!(state.assigned_from[0].num, vec![0, 0]);
    assert_eq!(state.assigned_from[0].den, 2);
    assert_eq!(state.assigned_from[1].num, vec![10, 20]);
    assert_eq!(state.assigned_from[1].den, 2);
    assert_eq!(state.centroids[1].num, vec![50, 100]);
    assert_eq!(state.centroids[1].den, 5);
}

fn banded(a: Vec<Vec<i64>>, b: Vec<Vec<i64>>, lo: i64, hi: i64) -> Vec<Band> {
    vec![
        Band::new(Grid::from_rows(-1, a).unwrap(), lo, hi).unwrap(),
        Band::new(Grid::from_rows(-1, b).unwrap(), lo, hi).unwrap(),
    ]
}

#[test]
fn class_sizes_add_up_to_the_valid_cells() {
    let a = vec![vec![1, 5, -1, 9], vec![3, 3, 8, -1], vec![0, 9, 9, 2]];
    let b = vec![vec![2, 5, 7, -1], vec![3, 1, 8, 4], vec![0, 9, 6, 2]];
    let bands = banded(a, b, 0, 9);
    let mut rng = seeded(3);
    let cfg = config(3, 1);
    let mut state = cfg.start(&bands, &mut rng).unwrap();
    let mut rounds = 0;
    while state.phase == Phase::Iterating {
        cfg.iterate(&bands, &mut state, &mut rng);
        rounds += 1;
        let total: u64 = state.class_n.iter().sum();
        assert_eq!(total, 9);
        assert_eq!(state.valid_cells, 9);
        assert_eq!(state.iterations, rounds);
    }
    assert!(rounds <= 10);
    assert_eq!(state.labels[0][2], None);
    assert_eq!(state.labels[0][3], None);
    assert_eq!(state.labels[1][3], None);
    let labelled = state.labels.iter().flatten().filter(|l| l.is_some()).count();
    assert_eq!(labelled, 9);
}

#[test]
fn run_stops_at_the_iteration_budget() {
    // With a threshold of zero percent no iteration ever converges.
    let mut cfg = config(2, 1);
    cfg.class_change = Percent { num: 0, den: 1 };
    cfg.max_iterations = 4;
    let mut rng = seeded(1);
    let state = cfg.run(&two_bands(), &mut rng).unwrap();
    assert_eq!(state.iterations, 4);
    assert_eq!(state.phase, Phase::Exhausted);
    assert_eq!(state.changed_cells, 0);
}

#[test]
fn centre_of_a_class_is_the_mean_of_its_members() {
    let a = vec![vec![1, 2, 3], vec![20, 22, 27]];
    let b = vec![vec![5, 5, 8], vec![30, 30, 30]];
    let bands = banded(a, b, 0, 30);
    let cs = vec![
        Centroid { num: vec![0, 0], den: 1 },
        Centroid { num: vec![30, 30], den: 1 },
    ];
    let mut labels: Vec<Vec<Option<usize>>> = vec![vec![None; 3]; 2];
    let agg = assignment_step(&bands, &cs, &mut labels, Partition::Striped, 2);
    assert_eq!(labels, vec![vec![Some(0); 3], vec![Some(1); 3]]);
    let mut next = copy_centroids(&cs);
    let mut rng = seeded(1);
    update_centroids(&mut next, &agg.stats, 2, 1, &mut rng);
    assert_eq!(next[0].num, vec![6, 18]);
    assert_eq!(next[0].den, 3);
    assert_eq!(next[1].num, vec![69, 90]);
    assert_eq!(next[1].den, 3);
}

#[test]
fn assignment_does_not_depend_on_the_number_of_workers() {
    let a = vec![vec![1, 5, -1, 9], vec![3, 3, 8, -1], vec![0, 9, 9, 2], vec![4, 4, 4, 4]];
    let b = vec![vec![2, 5, 7, -1], vec![3, 1, 8, 4], vec![0, 9, 6, 2], vec![1, 2, 3, 4]];
    let bands = banded(a, b, 0, 9);
    let cs = diagonal_centroids(&bands, 3);
    let mut first: Vec<Vec<Option<usize>>> = vec![vec![None; 4]; 4];
    let one = assignment_step(&bands, &cs, &mut first, Partition::Striped, 1);
    for workers in 2..7 {
        let mut labels: Vec<Vec<Option<usize>>> = vec![vec![None; 4]; 4];
        let agg = assignment_step(&bands, &cs, &mut labels, Partition::Striped, workers);
        assert_eq!(labels, first);
        assert_eq!(agg.changed, one.changed);
        for k in 0..3 {
            assert_eq!(agg.stats[k].count, one.stats[k].count);
            assert_eq!(agg.stats[k].sum, one.stats[k].sum);
            assert_eq!(agg.stats[k].least, one.stats[k].least);
            assert_eq!(agg.stats[k].greatest, one.stats[k].greatest);
        }
        assert_eq!(agg.received, vec![true; 4]);
        let mut blocks: Vec<Vec<Option<usize>>> = vec![vec![None; 4]; 4];
        let other = assignment_step(&bands, &cs, &mut blocks, Partition::Block, workers);
        assert_eq!(blocks, first);
        assert_eq!(other.changed, one.changed);
        for k in 0..3 {
            assert_eq!(other.stats[k].count, one.stats[k].count);
            assert_eq!(other.stats[k].sum, one.stats[k].sum);
        }
    }
    assert_eq!(one.changed, 13);
}

#[test]
fn assignment_counts_only_cells_that_change_class() {
    let bands = two_bands();
    let cs = diagonal_centroids(&bands, 2);
    let mut labels: Vec<Vec<Option<usize>>> = vec![
        vec![Some(0), Some(1), None],
        vec![Some(0), Some(1), Some(0)],
        vec![Some(1), Some(1), Some(1)],
    ];
    let agg = assignment_step(&bands, &cs, &mut labels, Partition::Striped, 3);
    assert_eq!(agg.changed, 3);
}

fn stats_of(values: Vec<Vec<i64>>, bands: usize) -> ClassStats {
    let mut s = ClassStats::empty(bands);
    for v in &values {
        s.add_cell(v);
    }
    s
}

#[test]
fn small_class_is_reseeded_within_the_range_of_a_large_one() {
    let large = stats_of(vec![vec![10, 100], vec![12, 140], vec![14, 120], vec![11, 110]], 2);
    let small = stats_of(Vec::new(), 2);
    let pair = stats_of(vec![vec![50, 500], vec![60, 600]], 2);
    let stats = vec![small, pair, large];
    let mut cs = vec![
        Centroid { num: vec![0, 0], den: 1 },
        Centroid { num: vec![55, 550], den: 1 },
        Centroid { num: vec![12, 120], den: 1 },
    ];
    let mut rng = seeded(5);
    update_centroids(&mut cs, &stats, 2, 1, &mut rng);
    // Class 0 has no member; only class 2 has more than twice the minimum.
    assert_eq!(cs[0].den, 1);
    assert!(10 <= cs[0].num[0] && cs[0].num[0] <= 14);
    assert!(100 <= cs[0].num[1] && cs[0].num[1] <= 140);
    assert_eq!(cs[1].num, vec![110, 1100]);
    assert_eq!(cs[1].den, 2);
    assert_eq!(cs[2].num, vec![47, 470]);
    assert_eq!(cs[2].den, 4);
}

#[test]
fn small_class_stays_put_without_a_donor() {
    let small = stats_of(Vec::new(), 1);
    let pair = stats_of(vec![vec![50], vec![60]], 1);
    let stats = vec![small, pair];
    let mut cs = vec![Centroid { num: vec![7], den: 3 }, Centroid { num: vec![55], den: 1 }];
    let mut rng = seeded(5);
    update_centroids(&mut cs, &stats, 1, 1, &mut rng);
    assert_eq!(cs[0].num, vec![7]);
    assert_eq!(cs[0].den, 3);
    assert_eq!(cs[1].num, vec![110]);
    assert_eq!(cs[1].den, 2);
}

#[test]
fn empty_class_stays_put_when_no_member_is_asked_for() {
    let none = stats_of(Vec::new(), 1);
    let pair = stats_of(vec![vec![50], vec![60]], 1);
    let stats = vec![none, pair];
    let mut cs = vec![Centroid { num: vec![7], den: 3 }, Centroid { num: vec![55], den: 1 }];
    let mut rng = seeded(5);
    update_centroids(&mut cs, &stats, 1, 0, &mut rng);
    assert_eq!(cs[0].num, vec![7]);
    assert_eq!(cs[0].den, 3);
}

#[test]
fn donor_threshold_rises_with_each_use() {
    let large = stats_of(vec![vec![1], vec![2], vec![3], vec![4], vec![5], vec![6], vec![7]], 1);
    let small = stats_of(vec![vec![9]], 1);
    let stats = vec![small, large];
    let mut thresholds: Vec<u64> = vec![4, 4];
    let mut rng = seeded(11);
    assert_eq!(pick_donor(&mut rng, &stats, &mut thresholds, 2), Some(1));
    assert_eq!(thresholds, vec![4, 6]);
    assert_eq!(pick_donor(&mut rng, &stats, &mut thresholds, 2), Some(1));
    assert_eq!(thresholds, vec![4, 8]);
    assert_eq!(pick_donor(&mut rng, &stats, &mut thresholds, 2), None);
    assert_eq!(thresholds, vec![4, 8]);
}

#[test]
fn donor_is_found_at_once_where_every_class_may_serve() {
    let first = stats_of(vec![vec![1], vec![2], vec![3]], 1);
    let second = stats_of(vec![vec![4], vec![5], vec![6], vec![7]], 1);
    let stats = vec![first, second];
    for seed in 0..20 {
        let mut thresholds: Vec<u64> = vec![2, 3];
        let mut rng = seeded(seed);
        let donor = pick_donor(&mut rng, &stats, &mut thresholds, 1).unwrap();
        if donor == 0 {
            assert_eq!(thresholds, vec![3, 3]);
        } else {
            assert_eq!(donor, 1);
            assert_eq!(thresholds, vec![2, 4]);
        }
    }
}

#[test]
fn no_donor_where_no_class_may_serve() {
    let first = stats_of(vec![vec![1], vec![2]], 1);
    let second = stats_of(Vec::new(), 1);
    let stats = vec![first, second];
    let mut thresholds: Vec<u64> = vec![2, 0];
    let mut rng = seeded(3);
    assert_eq!(pick_donor(&mut rng, &stats, &mut thresholds, 1), None);
    assert_eq!(thresholds, vec![2, 0]);
}

#[test]
fn sample_within_stays_in_the_range_of_the_donor() {
    let donor = stats_of(vec![vec![3, -5, 7], vec![9, 5, 7], vec![6, 0, 7]], 3);
    let mut rng = seeded(13);
    let mut low_seen = false;
    let mut other_seen = false;
    for _ in 0..100 {
        let c = sample_within(&mut rng, &donor);
        assert_eq!(c.den, 1);
        assert!(3 <= c.num[0] && c.num[0] <= 9);
        assert!(-5 <= c.num[1] && c.num[1] <= 5);
        assert_eq!(c.num[2], 7);
        if c.num[0] == 3 {
            low_seen = true;
        } else {
            other_seen = true;
        }
    }
    assert!(other_seen);
    assert!(low_seen || other_seen);
}

#[test]
fn degenerate_class_in_a_run_is_reseeded_or_left() {
    // Ten cells at the minimum and two at the maximum: the middle one of
    // three diagonal centres gets no cell.
    let a = vec![vec![0, 0, 0, 0], vec![0, 0, 0, 0], vec![0, 0, 90, 90]];
    let b = vec![vec![0, 0, 0, 0], vec![0, 0, 0, 0], vec![0, 0, 90, 90]];
    let bands = banded(a, b, 0, 90);
    let cfg = config(3, 1);
    let mut rng = seeded(2);
    let mut state = cfg.start(&bands, &mut rng).unwrap();
    cfg.iterate(&bands, &mut state, &mut rng);
    assert_eq!(state.class_n, vec![10, 0, 2]);
    assert_eq!(state.centroids[0].num, vec![0, 0]);
    assert_eq!(state.centroids[0].den, 10);
    assert_eq!(state.centroids[2].num, vec![180, 180]);
    assert_eq!(state.centroids[2].den, 2);
    let unchanged = state.centroids[1].num == vec![90, 90] && state.centroids[1].den == 3;
    let reseeded = state.centroids[1].num == vec![0, 0] && state.centroids[1].den == 1;
    assert!(unchanged || reseeded);
}
