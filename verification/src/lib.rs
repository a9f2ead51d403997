//! A fixed-capacity, vector-like sequence container.
//!
//! [`StaticVector<T, N>`] holds up to `N` elements in a backing store that is
//! sized once, at construction, and never grows. A single length counter
//! partitions the store into a live prefix and an empty suffix; every
//! operation is specified and verified in terms of moving that boundary.

pub mod laws;
pub mod vector;

pub use vector::IntoIter;
pub use vector::StaticVector;
