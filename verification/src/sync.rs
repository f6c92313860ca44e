//! The write lock guarding a mailbox's `external` queue.
//!
//! The lock carries no data of its own: it only serializes the senders
//! appending to the `external` queue against the owning process's batched
//! drain. Verification sees the lock as an opaque value; mutual exclusion
//! itself is the lock implementation's contract.

use vstd::prelude::*;

verus! {

/// A mutual-exclusion lock over no data, used to serialize appends to a
/// mailbox's `external` queue. Opaque to verification.
#[verifier::external_body]
pub struct WriteLock {
    inner: parking_lot::Mutex<()>,
}

/// Proof of holding a [`WriteLock`]; the lock is released when the guard
/// is dropped. Opaque to verification.
#[verifier::external_body]
pub struct WriteLockGuard<'a> {
    inner: parking_lot::MutexGuard<'a, ()>,
}

impl WriteLock {
    /// Relies on `lock_api::Mutex::new` (re-exported as
    /// `parking_lot::Mutex`): creates an unlocked mutex.
    #[verifier::external_body]
    pub fn new() -> WriteLock {
        WriteLock { inner: parking_lot::Mutex::new(()) }
    }

    /// Relies on `lock_api::Mutex::lock` (re-exported as
    /// `parking_lot::Mutex`): blocks until the mutex is available, then
    /// acquires it until the returned guard is dropped.
    #[verifier::external_body]
    pub fn lock(&self) -> WriteLockGuard<'_> {
        WriteLockGuard { inner: self.inner.lock() }
    }
}

} // verus!
