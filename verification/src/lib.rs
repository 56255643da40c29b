//! A versioned, copy-on-write key-value store with snapshot-isolated
//! transactions.
//!
//! The canonical state lives in a concurrently readable B+tree. A read
//! transaction pins an immutable point-in-time view of that state; a single
//! write transaction mutates a private working copy and publishes it
//! atomically on commit. Transactions and range cursors are addressed
//! through opaque, monotonically allocated `u64` handles kept in a registry,
//! so that a caller who cannot express ownership or lifetimes (for example a
//! foreign host) can still never reach freed or retired transaction state:
//! every operation is a checked table lookup that fails with
//! [`errors::StoreError::HandleRetired`] instead of touching stale data.

use vstd::prelude::*;

pub mod cursor;
pub mod errors;
pub mod keys;
pub mod store;
mod tree;
pub mod txn;

verus! {

} // verus!
