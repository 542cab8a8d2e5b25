use image_analysis::extremum::{
    column_slice_extremum, filter_pass, filter_row, pick_extremum, Morph,
};
use image_analysis::dispatch::Partition;
use image_analysis::grid::Grid;
use image_analysis::opening::{odd_window_size, Opening};

fn grid_of(rows: Vec<Vec<i64>>) -> Grid {
    Grid::from_rows(-1, rows).unwrap()
}

fn cells(g: &Grid) -> Vec<Vec<i64>> {
    let mut out: Vec<Vec<i64>> = Vec::new();
    for r in 0..g.rows() {
        let mut line: Vec<i64> = Vec::new();
        for c in 0..g.columns() {
            line.push(g.get(r, c));
        }
        out.push(line);
    }
    out
}

fn patchy() -> Grid {
    grid_of(vec![
        vec![5, 3, 8, -1, 2, 9],
        vec![7, -1, 6, 4, 4, 1],
        vec![2, 2, -1, -1, 7, 3],
        vec![9, 1, 5, 6, -1, 8],
        vec![4, 4, 3, 2, 1, 0],
    ])
}

#[test]
fn even_window_sizes_round_up_to_odd() {
    assert_eq!(odd_window_size(4), 5);
    assert_eq!(odd_window_size(3), 3);
}

#[test]
fn window_sizes_are_at_least_three() {
    assert_eq!(odd_window_size(0), 3);
    assert_eq!(odd_window_size(1), 3);
    assert_eq!(odd_window_size(2), 3);
    assert_eq!(odd_window_size(11), 11);
    assert_eq!(odd_window_size(12), 13);
    assert_eq!(odd_window_size(usize::MAX), usize::MAX);
    assert_eq!(odd_window_size(usize::MAX - 1), usize::MAX);
}

#[test]
fn new_opening_has_a_window_of_eleven() {
    let tool = Opening::new();
    assert_eq!(tool.filter_size_x, 11);
    assert_eq!(tool.filter_size_y, 11);
    assert_eq!(tool.applied_window(), (11, 11));
}

#[test]
fn applied_window_is_the_rounded_request() {
    let tool = Opening { filter_size_x: 4, filter_size_y: 1 };
    assert_eq!(tool.applied_window(), (5, 3));
}

#[test]
fn pick_extremum_follows_the_direction() {
    assert_eq!(pick_extremum(Morph::Erosion, Some(3), Some(5)), Some(3));
    assert_eq!(pick_extremum(Morph::Erosion, Some(5), Some(3)), Some(3));
    assert_eq!(pick_extremum(Morph::Dilation, Some(3), Some(5)), Some(5));
    assert_eq!(pick_extremum(Morph::Dilation, Some(5), Some(3)), Some(5));
    assert_eq!(pick_extremum(Morph::Erosion, None, Some(5)), Some(5));
    assert_eq!(pick_extremum(Morph::Dilation, Some(5), None), Some(5));
    assert_eq!(pick_extremum(Morph::Erosion, None, None), None);
}

#[test]
fn column_slice_extremum_skips_nodata() {
    let g = patchy();
    assert_eq!(column_slice_extremum(&g, Morph::Erosion, 1, 0, 5), Some(1));
    assert_eq!(column_slice_extremum(&g, Morph::Dilation, 1, 0, 5), Some(4));
    assert_eq!(column_slice_extremum(&g, Morph::Erosion, 3, 0, 3), Some(4));
    assert_eq!(column_slice_extremum(&g, Morph::Dilation, 3, 2, 3), None);
    assert_eq!(column_slice_extremum(&g, Morph::Dilation, 0, 3, 3), None);
    assert_eq!(column_slice_extremum(&g, Morph::Dilation, 0, 4, 2), None);
    assert_eq!(column_slice_extremum(&g, Morph::Dilation, 6, 0, 5), None);
}

#[test]
fn erosion_takes_the_least_sample_of_the_window() {
    let g = grid_of(vec![vec![5, 3, 8], vec![7, 9, 6], vec![2, 4, 1]]);
    let out = filter_pass(&g, Morph::Erosion, 1, 1, Partition::Block, 1);
    assert_eq!(cells(&out), vec![vec![3, 3, 3], vec![2, 1, 1], vec![2, 1, 1]]);
}

#[test]
fn dilation_takes_the_greatest_sample_of_the_window() {
    let g = grid_of(vec![vec![5, 3, 8], vec![7, 9, 6], vec![2, 4, 1]]);
    let out = filter_pass(&g, Morph::Dilation, 1, 1, Partition::Block, 1);
    assert_eq!(cells(&out), vec![vec![9, 9, 9], vec![9, 9, 9], vec![9, 9, 9]]);
}

#[test]
fn window_may_be_wider_than_high() {
    let g = grid_of(vec![vec![5, 3, 8, 1], vec![7, 9, 6, 2]]);
    // Two columns to either side, no row above or below.
    let out = filter_pass(&g, Morph::Erosion, 2, 0, Partition::Block, 1);
    assert_eq!(cells(&out), vec![vec![3, 1, 1, 1], vec![6, 2, 2, 2]]);
    // One row above and below, no column to either side.
    let out = filter_pass(&g, Morph::Dilation, 0, 1, Partition::Block, 1);
    assert_eq!(cells(&out), vec![vec![7, 9, 8, 2], vec![7, 9, 8, 2]]);
}

#[test]
fn filter_row_gives_one_row_of_a_pass() {
    let g = patchy();
    assert_eq!(filter_row(&g, Morph::Erosion, 1, 1, 0), vec![3, 3, 3, -1, 1, 1]);
    assert_eq!(filter_row(&g, Morph::Dilation, 1, 1, 2), vec![9, 9, -1, -1, 8, 8]);
    assert_eq!(filter_row(&g, Morph::Erosion, 1, 1, 4), vec![1, 1, 1, 1, 0, 0]);
}

#[test]
fn cell_without_a_sample_stays_without() {
    let g = patchy();
    for op in [Morph::Erosion, Morph::Dilation] {
        let out = filter_pass(&g, op, 1, 1, Partition::Block, 2);
        for r in 0..5 {
            for c in 0..6 {
                assert_eq!(out.get(r, c) == -1, g.get(r, c) == -1);
            }
        }
    }
}

#[test]
fn lone_sample_among_nodata_keeps_its_value() {
    let g = grid_of(vec![vec![-1, -1, -1], vec![-1, 7, -1], vec![-1, -1, -1]]);
    let out = Opening { filter_size_x: 3, filter_size_y: 3 }.run(&g);
    assert_eq!(cells(&out), vec![vec![-1, -1, -1], vec![-1, 7, -1], vec![-1, -1, -1]]);
}

#[test]
fn window_larger_than_the_grid_sees_the_whole_grid() {
    let g = grid_of(vec![vec![5, 3], vec![7, 9]]);
    let out = filter_pass(&g, Morph::Erosion, 50, 50, Partition::Block, 3);
    assert_eq!(cells(&out), vec![vec![3, 3], vec![3, 3]]);
    let out = filter_pass(&g, Morph::Dilation, 50, 50, Partition::Block, 3);
    assert_eq!(cells(&out), vec![vec![9, 9], vec![9, 9]]);
}

#[test]
fn empty_grid_passes_through() {
    let g = Grid::from_rows(-1, Vec::new()).unwrap();
    let out = Opening::new().run(&g);
    assert_eq!(out.rows(), 0);
    assert_eq!(out.columns(), 0);
    let g = Grid::new(3, 0, -1, -1);
    let out = Opening::new().run(&g);
    assert_eq!(out.rows(), 3);
    assert_eq!(out.columns(), 0);
}

#[test]
fn erosion_is_below_and_dilation_above_the_input() {
    let g = patchy();
    let low = filter_pass(&g, Morph::Erosion, 1, 2, Partition::Block, 2);
    let high = filter_pass(&g, Morph::Dilation, 1, 2, Partition::Block, 2);
    for r in 0..5 {
        for c in 0..6 {
            if g.get(r, c) != -1 {
                assert!(low.get(r, c) != -1);
                assert!(high.get(r, c) != -1);
                assert!(low.get(r, c) <= g.get(r, c));
                assert!(g.get(r, c) <= high.get(r, c));
            }
        }
    }
}

#[test]
fn opening_twice_is_opening_once() {
    for size in [3usize, 4, 5, 7] {
        let tool = Opening { filter_size_x: size, filter_size_y: 3 };
        let once = tool.run(&patchy());
        let twice = tool.run(&once);
        assert_eq!(cells(&twice), cells(&once));
    }
}

#[test]
fn opening_removes_an_isolated_spike() {
    let mut rows: Vec<Vec<i64>> = Vec::new();
    for r in 0..5 {
        let mut line: Vec<i64> = Vec::new();
        for c in 0..5 {
            line.push(if r == 2 && c == 2 { 100 } else { 10 });
        }
        rows.push(line);
    }
    let grid = Grid::from_rows(-1, rows).unwrap();
    let tool = Opening { filter_size_x: 3, filter_size_y: 3 };
    let out = tool.run(&grid);
    for r in 0..5 {
        for c in 0..5 {
            assert_eq!(out.get_value(r, c), 10);
        }
    }
}

#[test]
fn opening_keeps_a_feature_as_large_as_the_window() {
    let mut rows: Vec<Vec<i64>> = vec![vec![10; 7]; 7];
    for r in 2..5 {
        for c in 2..5 {
            rows[r][c] = 100;
        }
    }
    let grid = grid_of(rows.clone());
    let out = Opening { filter_size_x: 3, filter_size_y: 3 }.run(&grid);
    assert_eq!(cells(&out), rows);
}

#[test]
fn opening_is_an_erosion_then_a_dilation() {
    let g = patchy();
    let eroded = filter_pass(&g, Morph::Erosion, 2, 1, Partition::Block, 1);
    let want = filter_pass(&eroded, Morph::Dilation, 2, 1, Partition::Block, 1);
    let got = Opening { filter_size_x: 5, filter_size_y: 3 }.run(&g);
    assert_eq!(cells(&got), cells(&want));
}

#[test]
fn pass_does_not_depend_on_the_number_of_workers() {
    let g = patchy();
    for op in [Morph::Erosion, Morph::Dilation] {
        let one = filter_pass(&g, op, 1, 1, Partition::Block, 1);
        for workers in 2..9 {
            let many = filter_pass(&g, op, 1, 1, Partition::Block, workers);
            assert_eq!(cells(&many), cells(&one));
        }
    }
}

#[test]
fn pass_does_not_depend_on_the_scheme() {
    let g = patchy();
    for op in [Morph::Erosion, Morph::Dilation] {
        for workers in 1..5 {
            let blocks = filter_pass(&g, op, 2, 1, Partition::Block, workers);
            let stripes = filter_pass(&g, op, 2, 1, Partition::Striped, workers);
            assert_eq!(cells(&stripes), cells(&blocks));
        }
    }
}

#[test]
fn pass_keeps_extent_and_sentinel() {
    let g = Grid::from_rows(-7, vec![vec![1, 2, 3, 4]]).unwrap();
    let out = filter_pass(&g, Morph::Dilation, 1, 1, Partition::Block, 4);
    assert_eq!(out.rows(), 1);
    assert_eq!(out.columns(), 4);
    assert_eq!(out.nodata(), -7);
    assert_eq!(cells(&out), vec![vec![2, 3, 4, 4]]);
}
