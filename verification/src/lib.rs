//! Simulation of a bounded random-walk dice game, run as many independent
//! trials, together with the statistics pipeline that partitions the work
//! across workers and merges the per-worker partial results into exact
//! global descriptive statistics (extrema, mean numerator, median, mode,
//! per-player win tallies, threshold counts).

pub mod game_parts;
pub mod histogram;
pub mod utility;
