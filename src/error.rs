//! Failures that the store reports.
use vstd::prelude::*;

verus! {

/// Why a storage operation failed.
#[derive(Debug, Clone, Copy, PartialEq, Eq, Structural)]
pub enum StorageError {
    /// A required row is absent.
    NotFound,
    /// A row could not be written: its key is already taken.
    PersistenceViolation,
    /// A stored payload could not be decoded.
    Serialization,
    /// No connection could be had.
    Connection,
    /// Any other failure of the store, such as an exhausted counter.
    Backend,
}

} // verus!
