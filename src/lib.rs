//! Line-coverage aggregation from coverage trace records, and resolution of the
//! set of files changed relative to a base revision.

pub mod cli;
pub mod coverage;
pub mod git;
pub mod path_order;
