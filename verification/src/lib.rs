//! A randomized approximate-near-neighbor index for unit vectors on the
//! sphere, built on random-projection space partitioning and a combinatorial
//! tensoring amplification.
//!
//! Coordinates are fixed-point numbers: an `i64` holds the real value times
//! [`utils::SCALE`].  All similarity arithmetic is exact integer arithmetic,
//! so every contract below pins the result exactly.  The scalar parameters
//! that need transcendental arithmetic (the number of directions, the search
//! threshold, the corridor bounds) are computed by the caller and handed in
//! as fixed-point values.

pub mod bucket_table;
pub mod checks;
pub mod close_top1;
pub mod query;
pub mod tensor_top1;
pub mod top1;
pub mod utils;
