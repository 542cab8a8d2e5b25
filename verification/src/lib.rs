//! Whole-image raster analysis on integer-valued grids: a sliding-window
//! morphological opening and a k-means classifier, with the row partitioning
//! that lets both be spread over a pool of workers.

pub mod grid;
pub mod ratio;
pub mod centroid;
pub mod band;
pub mod fold;
pub mod stats;
pub mod assign;
pub mod dispatch;
pub mod aggregate;
pub mod step;
pub mod update;
pub mod census;
pub mod config;
pub mod init;
pub mod kmeans;
pub mod extremum;
pub mod morphology;
pub mod opening;
