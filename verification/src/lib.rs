//! Building blocks of a micro-benchmark that compares random-access reads
//! through a hash map (with a general-purpose hash and with an identity hash),
//! through a flat vector, and through a vector reached by one extra level of
//! indirection.
//!
//! Every read is added to an accumulator with wrapping arithmetic. The
//! contracts in this crate pin the accumulator down as a function of the data
//! that was read, so the measured loops can be checked against injected data.

pub mod accumulator;
pub mod bench;
pub mod keyed;
pub mod no_hasher;
pub mod replay;
pub mod report;
pub mod source;

pub use no_hasher::{InvalidUse, NoHasher};
