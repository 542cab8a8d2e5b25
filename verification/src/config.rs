//! The configuration of a clustering run, and its validation.

use crate::band::{grids, stack_columns, stack_rows, Band};
use crate::centroid::{BAND_LIMIT, CELL_LIMIT};
use vstd::prelude::*;

verus! {

/// How the first centres are chosen.
#[derive(Clone, Copy, Debug, PartialEq, Eq, Structural)]
pub enum InitMode {
    /// Evenly along the diagonal of the value range.
    Diagonal,
    /// At the samples of randomly drawn cells.
    Random,
}

/// Why a configuration was turned down.
#[derive(Clone, Copy, Debug, PartialEq, Eq, Structural)]
pub enum ConfigError {
    /// Fewer than two bands.
    TooFewBands,
    /// The iteration budget is not within 2 to 250.
    IterationsOutOfRange,
    /// The class-change threshold is not within 0 to 25 percent.
    ThresholdOutOfRange,
    /// The number of classes is not within 2 to rows times columns.
    ClassesOutOfRange,
    /// The minimum class size exceeds rows times columns over the number of
    /// classes.
    MinClassSizeTooLarge,
    /// More bands than exact arithmetic allows for.
    TooManyBands,
    /// More cells than exact arithmetic allows for.
    GridTooLarge,
    /// The bands do not share one extent.
    ExtentMismatch,
}

/// A percentage as a fraction: `num / den` percent.
#[derive(Clone, Copy, Debug)]
pub struct Percent {
    pub num: u64,
    pub den: u64,
}

/// The configuration of a clustering run.
#[derive(Clone, Copy, Debug)]
pub struct KMeansClustering {
    /// The number of classes.
    pub num_classes: usize,
    /// The iteration budget.
    pub max_iterations: usize,
    /// The run stops once fewer than this share of the valid cells change
    /// class in an iteration.
    pub class_change: Percent,
    /// How the first centres are chosen.
    pub initialize: InitMode,
    /// A class with fewer members is reseeded.
    pub min_class_size: usize,
}

impl KMeansClustering {
    /// The configuration that a run starts from when nothing is set: no
    /// classes yet, ten iterations, a threshold of five percent, centres
    /// along the diagonal, and a minimum class size of ten.
    pub fn new() -> (config: KMeansClustering)
        ensures
            config.num_classes == 0,
            config.max_iterations == 10,
            config.class_change.num == 5,
            config.class_change.den == 1,
            config.initialize == InitMode::Diagonal,
            config.min_class_size == 10,
    {
        KMeansClustering {
            num_classes: 0,
            max_iterations: 10,
            class_change: Percent { num: 5, den: 1 },
            initialize: InitMode::Diagonal,
            min_class_size: 10,
        }
    }

    /// The first fault of the configuration for `band_count` bands of the
    /// given extent, or none.
    pub open spec fn config_error(&self, band_count: int, rows: int, columns: int) -> Option<
        ConfigError,
    > {
        if band_count < 2 {
            Some(ConfigError::TooFewBands)
        } else if self.max_iterations < 2 || self.max_iterations > 250 {
            Some(ConfigError::IterationsOutOfRange)
        } else if self.class_change.den == 0 || self.class_change.num > 25 * self.class_change.den {
            Some(ConfigError::ThresholdOutOfRange)
        } else if self.num_classes < 2 || self.num_classes > rows * columns {
            Some(ConfigError::ClassesOutOfRange)
        } else if self.min_class_size > (rows * columns) / (self.num_classes as int) {
            Some(ConfigError::MinClassSizeTooLarge)
        } else if band_count > BAND_LIMIT {
            Some(ConfigError::TooManyBands)
        } else if rows * columns > CELL_LIMIT {
            Some(ConfigError::GridTooLarge)
        } else {
            None
        }
    }

    /// Checks the configuration against the number of bands and their
    /// extent. No sample is needed for this.
    pub fn validate(&self, band_count: usize, rows: usize, columns: usize) -> (outcome: Result<
        (),
        ConfigError,
    >)
        ensures
            match outcome {
                Ok(_) => self.config_error(band_count as int, rows as int, columns as int)
                    is None,
                Err(e) => self.config_error(band_count as int, rows as int, columns as int)
                    == Some(e),
            },
    {
        if band_count < 2 {
            return Err(ConfigError::TooFewBands);
        }
        if self.max_iterations < 2 || self.max_iterations > 250 {
            return Err(ConfigError::IterationsOutOfRange);
        }
        if self.class_change.den == 0 || (self.class_change.num as u128) > 25 * (
        self.class_change.den as u128) {
            return Err(ConfigError::ThresholdOutOfRange);
        }
        assert(0 <= rows * columns <= 0xFFFF_FFFF_FFFF_FFFF * 0xFFFF_FFFF_FFFF_FFFF)
            by (nonlinear_arith)
            requires
                0 <= rows <= 0xFFFF_FFFF_FFFF_FFFF,
                0 <= columns <= 0xFFFF_FFFF_FFFF_FFFF,
        ;
        let cells: u128 = (rows as u128) * (columns as u128);
        if self.num_classes < 2 || (self.num_classes as u128) > cells {
            return Err(ConfigError::ClassesOutOfRange);
        }
        if (self.min_class_size as u128) > cells / (self.num_classes as u128) {
            return Err(ConfigError::MinClassSizeTooLarge);
        }
        if band_count > BAND_LIMIT {
            return Err(ConfigError::TooManyBands);
        }
        if cells > CELL_LIMIT as u128 {
            return Err(ConfigError::GridTooLarge);
        }
        Ok(())
    }

    /// The first fault of the configuration for a stack of bands, or none.
    pub open spec fn run_error(&self, bands: Seq<Band>) -> Option<ConfigError> {
        let g = grids(bands);
        let base = self.config_error(
            bands.len() as int,
            stack_rows(g) as int,
            stack_columns(g) as int,
        );
        if base is Some {
            base
        } else if !same_extent(bands) {
            Some(ConfigError::ExtentMismatch)
        } else {
            None
        }
    }
}

/// Whether all bands have the extent of the first.
pub open spec fn same_extent(bands: Seq<Band>) -> bool {
    forall|i: int|
        0 <= i < bands.len() ==> (#[trigger] bands[i]).grid@.rows == bands[0].grid@.rows
            && bands[i].grid@.columns == bands[0].grid@.columns
}

/// Checks that all bands have the extent of the first.
pub fn check_extents(bands: &Vec<Band>) -> (outcome: Result<(), ConfigError>)
    ensures
        match outcome {
            Ok(_) => same_extent(bands@),
            Err(e) => e == ConfigError::ExtentMismatch && !same_extent(bands@),
        },
{
    let mut i: usize = 1;
    while i < bands.len()
        invariant
            1 <= i,
            forall|j: int|
                0 <= j < i && j < bands@.len() ==> (#[trigger] bands@[j]).grid@.rows
                    == bands@[0].grid@.rows && bands@[j].grid@.columns == bands@[0].grid@.columns,
        decreases bands@.len() - i,
    {
        if bands[i].grid.rows() != bands[0].grid.rows() || bands[i].grid.columns()
            != bands[0].grid.columns() {
            return Err(ConfigError::ExtentMismatch);
        }
        i += 1;
    }
    Ok(())
}

} // verus!
