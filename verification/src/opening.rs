//! The opening filter: an erosion followed by a dilation, over a window
//! that is at least three cells wide and high and has a centre cell.

use crate::dispatch::{available_workers, Partition};
use crate::extremum::{filter_pass, opened, Morph};
use crate::grid::Grid;
use vstd::prelude::*;

verus! {

/// The window size that is applied for a requested one: at least three, and
/// the next odd number where the request is even.
pub open spec fn applied_size(size: int) -> int {
    let least = if size < 3 {
        3
    } else {
        size
    };
    if least % 2 == 0 {
        least + 1
    } else {
        least
    }
}

/// The window size that is applied for a requested one.
pub fn odd_window_size(size: usize) -> (applied: usize)
    ensures
        applied == applied_size(size as int),
        applied >= 3,
        applied % 2 == 1,
{
    let least: usize = if size < 3 {
        3
    } else {
        size
    };
    if least % 2 == 0 {
        assert(least < usize::MAX) by {
            assert(usize::MAX % 2 == 1) by {
                assert(usize::MAX == 0xFFFF_FFFF || usize::MAX == 0xFFFF_FFFF_FFFF_FFFF);
            }
        }
        least + 1
    } else {
        least
    }
}

/// The opening filter and the size of its window.
#[derive(Clone, Copy, Debug)]
pub struct Opening {
    /// The requested width of the window, in columns.
    pub filter_size_x: usize,
    /// The requested height of the window, in rows.
    pub filter_size_y: usize,
}

impl Opening {
    /// The filter with its usual window of eleven by eleven cells.
    pub fn new() -> (tool: Opening)
        ensures
            tool.filter_size_x == 11,
            tool.filter_size_y == 11,
    {
        Opening { filter_size_x: 11, filter_size_y: 11 }
    }

    /// The width and height of the window that is applied.
    pub fn applied_window(&self) -> (window: (usize, usize))
        ensures
            window.0 == applied_size(self.filter_size_x as int),
            window.1 == applied_size(self.filter_size_y as int),
    {
        (odd_window_size(self.filter_size_x), odd_window_size(self.filter_size_y))
    }

    /// Opens a grid: an erosion over the applied window, then a dilation of
    /// its outcome over the same window. Cells without a sample stay
    /// without. Each pass shares the rows out in blocks over as many workers
    /// as the machine offers.
    pub fn run(&self, input: &Grid) -> (output: Grid)
        requires
            input.wf(),
        ensures
            output.wf(),
            output@ == opened(
                input@,
                applied_size(self.filter_size_x as int) / 2,
                applied_size(self.filter_size_y as int) / 2,
            ),
    {
        let window: (usize, usize) = self.applied_window();
        let mx: usize = window.0 / 2;
        let my: usize = window.1 / 2;
        let workers: usize = available_workers();
        let erosion: Grid = filter_pass(input, Morph::Erosion, mx, my, Partition::Block, workers);
        filter_pass(&erosion, Morph::Dilation, mx, my, Partition::Block, workers)
    }
}

} // verus!
