//! Lock helpers that recover from poisoning.
//!
//! A lock is poisoned when a thread panicked while it held the lock. What
//! the locks of this library guard is either a cache or display state, for
//! which going on with what is there beats giving up: every helper here
//! hands out the guard whether the lock is poisoned or not.
use std::sync::{Mutex, MutexGuard, PoisonError, RwLock, RwLockReadGuard, RwLockWriteGuard};
use vstd::prelude::*;

verus! {

/// `std::sync::Mutex`, carried through as it is.
#[verifier::external_type_specification]
#[verifier::external_body]
#[verifier::reject_recursive_types(T)]
pub struct ExMutex<T: ?Sized>(Mutex<T>);

/// `std::sync::MutexGuard`, carried through as it is.
#[verifier::external_type_specification]
#[verifier::external_body]
#[verifier::reject_recursive_types(T)]
pub struct ExMutexGuard<'a, T: ?Sized + 'a>(MutexGuard<'a, T>);

/// `std::sync::RwLock`, carried through as it is.
#[verifier::external_type_specification]
#[verifier::external_body]
#[verifier::reject_recursive_types(T)]
pub struct ExRwLock<T: ?Sized>(RwLock<T>);

/// `std::sync::RwLockReadGuard`, carried through as it is.
#[verifier::external_type_specification]
#[verifier::external_body]
#[verifier::reject_recursive_types(T)]
pub struct ExRwLockReadGuard<'a, T: ?Sized>(RwLockReadGuard<'a, T>);

/// `std::sync::RwLockWriteGuard`, carried through as it is.
#[verifier::external_type_specification]
#[verifier::external_body]
#[verifier::reject_recursive_types(T)]
pub struct ExRwLockWriteGuard<'a, T: ?Sized + 'a>(RwLockWriteGuard<'a, T>);

/// `std::sync::PoisonError`, carried through as it is.
#[verifier::external_type_specification]
#[verifier::external_body]
#[verifier::reject_recursive_types(T)]
pub struct ExPoisonError<T>(PoisonError<T>);

/// `Mutex::lock`: waits for the lock and hands out its guard, as an error
/// if the lock is poisoned. What it does in a thread that holds the lock
/// already is left open by the standard library: it may wait for ever or
/// panic.
#[verifier::external_body]
fn lock<'a, T>(mutex: &'a Mutex<T>) -> (out: Result<
    MutexGuard<'a, T>,
    PoisonError<MutexGuard<'a, T>>,
>) {
    mutex.lock()
}

/// `RwLock::read`: waits for shared access and hands out its guard, as an
/// error if the lock is poisoned. It may wait for ever or panic in a thread
/// that holds the lock already.
#[verifier::external_body]
fn read<'a, T>(rwlock: &'a RwLock<T>) -> (out: Result<
    RwLockReadGuard<'a, T>,
    PoisonError<RwLockReadGuard<'a, T>>,
>) {
    rwlock.read()
}

/// `RwLock::write`: waits for exclusive access and hands out its guard, as
/// an error if the lock is poisoned. It may wait for ever or panic in a
/// thread that holds the lock already.
#[verifier::external_body]
fn write<'a, T>(rwlock: &'a RwLock<T>) -> (out: Result<
    RwLockWriteGuard<'a, T>,
    PoisonError<RwLockWriteGuard<'a, T>>,
>) {
    rwlock.write()
}

/// `PoisonError::into_inner`: the guard that the error carries.
#[verifier::external_body]
fn into_inner<G>(error: PoisonError<G>) -> (out: G) {
    error.into_inner()
}

/// Lock a `Mutex`, recovering from poison if necessary. The calling thread
/// must not hold the lock already.
pub fn lock_recover<'a, T>(mutex: &'a Mutex<T>) -> (out: MutexGuard<'a, T>) {
    match lock(mutex) {
        Ok(guard) => guard,
        Err(poisoned) => into_inner(poisoned),
    }
}

/// Acquire a read lock on an `RwLock`, recovering from poison if necessary.
/// The calling thread must not hold the lock already.
pub fn read_recover<'a, T>(rwlock: &'a RwLock<T>) -> (out: RwLockReadGuard<'a, T>) {
    match read(rwlock) {
        Ok(guard) => guard,
        Err(poisoned) => into_inner(poisoned),
    }
}

/// Acquire a write lock on an `RwLock`, recovering from poison if
/// necessary. The calling thread must not hold the lock already.
pub fn write_recover<'a, T>(rwlock: &'a RwLock<T>) -> (out: RwLockWriteGuard<'a, T>) {
    match write(rwlock) {
        Ok(guard) => guard,
        Err(poisoned) => into_inner(poisoned),
    }
}

} // verus!
