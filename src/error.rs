use vstd::prelude::*;

verus! {

/// What an operation of the store or of the codec can fail with.
#[derive(Debug, Clone, Copy, PartialEq, Eq, Structural)]
pub enum StoreError {
    /// The store could not be opened at the given path.
    PathUnavailable,
    /// Existing data at the path could not be read back.
    CorruptState,
    /// `merge` was called before a merge operator was registered.
    NoMergeOperator,
    /// The store was used after it was closed.
    StoreClosed,
    /// A value could not be decoded as a sequence of `u32`.
    MalformedValue,
    /// The underlying device or file system failed.
    IOError,
}

} // verus!
