//! Errors reported by the store.

use vstd::prelude::*;

verus! {

/// Why an operation on the store failed.
#[derive(Debug, Clone, PartialEq, Eq)]
pub enum StorageError {
    /// A create effect named a key that already had a value.
    DuplicateKeyOnCreate { key: Vec<u8> },
    /// A modify or delete effect named a key that had no value.
    MissingKeyOnModifyOrDelete { key: Vec<u8> },
    /// Stored module bytes could not be decoded; `reason` is the decoder's account.
    DecodeError { reason: String },
}

} // verus!
