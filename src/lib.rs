//! An embedded byte-string key-value store whose `merge` folds each new
//! fragment into the stored value through a registered merge operator.
//!
//! The library holds the store's logic: the little-endian codec of keys and
//! fragments, the concatenation operator, the write path and its durability
//! checkpoint, and the scan.

pub mod codec;
pub mod error;
pub mod laws;
pub mod merge;
pub mod store;
pub mod table;
pub mod workload;
