//! Classifies the elements of an integer array as zero, positive or negative,
//! once with a single sequential pass and once by partitioning the index range
//! into contiguous chunks that are counted independently and merged.
//! The chunk partitioning, the per-chunk counts and the aggregation are all
//! proved to reproduce the sequential result exactly.

pub mod generator;
pub mod parallel;
pub mod sequential;
pub mod triple;

pub use generator::generate_data;
pub use parallel::chunk_bounds;
pub use parallel::count_elements_multi;
pub use parallel::merge;
pub use parallel::merge_all;
pub use sequential::count_elements_single;
pub use sequential::count_range;
pub use triple::CountTriple;
