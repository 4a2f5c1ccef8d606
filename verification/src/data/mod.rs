//! Owned byte buffers and sequences of them.
pub mod buffer;
pub mod from;
pub mod hex;
pub mod into;
pub mod ops;
pub mod order;
pub mod seq;
pub mod sorting;

pub use buffer::{Data, DataIterator};
pub use seq::{DataSeq, DataSeqIterator};
