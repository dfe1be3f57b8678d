//! A growable sequence that owns its elements.
//!
//! [`ToyVec`] keeps its elements in the low slots of a fully initialised
//! backing store, grows that store geometrically when it is full, and hands
//! out a read-only forward cursor, [`Iter`], over the elements it holds.

pub mod growth;
pub mod iter;
pub mod toy_vec;

pub use iter::Iter;
pub use toy_vec::ToyVec;
