//! A set of 16-bit values, stored as one bit per value in a fixed array of
//! 64-bit words, with its cardinality kept alongside the bits.
//!
//! [`Bitmap`] is the set. Its members are a `Set<u16>`, its view; every
//! operation says what it does to that set, and to the words where a caller
//! can see them. The modules below it hold what the contracts are stated
//! with: the bits of one word, the members of a whole store, the lanes of the
//! lane-wise intersection, the text that shows a set, and the laws that hold
//! of the operations taken together.

pub mod bitmap;
pub mod bits;
pub mod lanes;
pub mod laws;
pub mod model;
pub mod ops;
pub mod render;

pub use bitmap::Bitmap;
