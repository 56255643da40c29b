//! The failure kinds of the store's boundary operations.

use vstd::prelude::*;

verus! {

/// Why a store operation was refused.
///
/// A missing key is deliberately not an error: lookups of absent keys return
/// an absent result and deletes of absent keys are no-ops.
#[derive(Clone, Copy, Debug, PartialEq, Eq)]
pub enum StoreError {
    /// The operation addressed a transaction or cursor handle that was
    /// already committed, aborted or closed, or that was never issued.
    /// Recoverable: it reports caller-side misuse, never corruption.
    HandleRetired,
    /// A write session is already active. The store uses a fail-fast
    /// single-writer policy: the caller may retry once the active session
    /// has been committed, aborted or closed.
    WriteSessionBusy,
}

} // verus!
