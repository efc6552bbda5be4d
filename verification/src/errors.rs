//! The failure taxonomy shared by every store-backed operation.

use vstd::prelude::*;

verus! {

/// Why a store-backed operation failed.
///
/// Callers are expected to tell retry-safe conditions (`Conflict`, a
/// transient `StoreError`) apart from terminal ones (`NotFound`,
/// `SerializationError`), so failures are never collapsed into a single
/// undifferentiated signal.
#[derive(Clone, Copy, PartialEq, Eq, Structural, Debug)]
pub enum AuthError {
    /// The requested key is absent from the store.
    NotFound,
    /// The bytes held under the key do not decode as the expected record.
    SerializationError,
    /// The underlying store failed to perform a read or write.
    StoreError,
    /// A cross-key consistency check failed: the record found under a
    /// refresh key does not name that key as its own refresh token.
    Conflict,
    /// The tag generator could not produce a token string.
    TagGenerationError,
}

} // verus!
