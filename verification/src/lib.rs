//! A binary max-heap over any element type with a total order.
//!
//! The heap is stored as a dense sequence that encodes a complete binary
//! tree: the root is at index 0 and the children of index `i` are at
//! `2 * i + 1` and `2 * i + 2`.

pub mod order;
pub mod model;
pub mod sift;
pub mod heap;
pub mod laws;

pub use heap::Heap;
