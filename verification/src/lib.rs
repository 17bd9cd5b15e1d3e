//! Sample-driven measurement engine of a microbenchmarking harness.
//!
//! A benchmarked function is run in *samples* of a number of iterations each.
//! Every sample is timed as a whole with a [`time::Clock`], corrected for the
//! overhead of the sampling loop, and recorded. The recorded samples are then
//! summarized into [`stats::Stats`].

#![allow(unused_imports)]

pub mod bench;
pub mod config;
pub mod context;
pub mod counter;
pub mod entry;
pub mod stats;
pub mod text;
pub mod time;
pub mod util;

pub use bench::Bencher;
