//! WaveSort: an in-place comparison sort for `i32` slices that grows a sorted
//! suffix by partitioning an expanding window and rotating the pieces into
//! place.

pub mod insertion;
pub mod laws;
pub mod lemmas;
pub mod model;
pub mod ordered;
pub mod partition;
pub mod rotate;
pub mod wave;

pub use insertion::insertion_sort;
pub use ordered::is_sorted;
pub use partition::partition;
pub use rotate::block_swap;
pub use wave::{downwave, sort, upwave, INSERTION_THRESHOLD};
