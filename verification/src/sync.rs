//! What the library takes from `std::sync`, and on what terms.
//!
//! Verus does not look into the standard library. The items here tell it
//! which types exist and what the few functions that the library calls may
//! be relied on for. Nothing here is proved; everything else in the library
//! is proved from it.

use std::sync::{Arc, Mutex, MutexGuard};
use vstd::prelude::*;
use crate::tree::StateTree;

verus! {

/// The mutual exclusion lock of the standard library, `std::sync::Mutex`.
/// Nothing is known of what it guards until it is locked.
#[verifier::external_type_specification]
#[verifier::external_body]
#[verifier::reject_recursive_types(T)]
pub struct ExMutex<T: ?Sized>(Mutex<T>);

/// The guard of a locked `std::sync::Mutex`, `std::sync::MutexGuard`, which
/// gives the lock back when it goes out of scope.
#[verifier::external_type_specification]
#[verifier::external_body]
#[verifier::reject_recursive_types(T)]
pub struct ExMutexGuard<'a, T: ?Sized + 'a>(MutexGuard<'a, T>);

/// Another handle to what `handle` points to.
///
/// This is `Arc::clone`, which hands out one more pointer to the same
/// allocation and leaves what it holds untouched. The contract is taken on
/// trust: the new handle holds the very thing that `handle` holds.
#[verifier::external_body]
pub(crate) fn share<T>(handle: &Arc<T>) -> (other: Arc<T>)
    ensures
        other == *handle,
{
    Arc::clone(handle)
}

/// A new lock around `tree`.
///
/// This is `Mutex::new`. Nothing is claimed of the lock that it returns.
#[verifier::external_body]
pub(crate) fn enclose(tree: StateTree) -> Mutex<StateTree> {
    Mutex::new(tree)
}

/// Takes the lock, waiting for it where another thread holds it.
///
/// This is `Mutex::lock`. A lock that was poisoned, because a thread
/// panicked while it held the guard, is taken all the same, through
/// `PoisonError::into_inner`. Nothing is claimed of the hierarchy behind the
/// guard: it is as the last holder left it. The call does not return if the
/// calling thread holds the lock already, so no function of the library
/// calls it while it has a guard.
#[verifier::external_body]
pub(crate) fn lock<'a>(mutex: &'a Mutex<StateTree>) -> MutexGuard<'a, StateTree> {
    match mutex.lock() {
        Ok(guard) => guard,
        Err(poisoned) => poisoned.into_inner(),
    }
}

/// The hierarchy behind a guard, for writing.
///
/// This is the `DerefMut` of `MutexGuard`. Nothing is claimed of the
/// hierarchy that it gives access to.
#[verifier::external_body]
pub(crate) fn guarded<'a, 'b>(guard: &'a mut MutexGuard<'b, StateTree>) -> &'a mut StateTree {
    &mut **guard
}

} // verus!
