//! A spin lock for user programs.
use vstd::prelude::*;
use std::sync::atomic::AtomicBool;
use std::sync::atomic::Ordering;

verus! {

/// A lock around a value of type `T`, free or taken.
pub struct Mutex<T> {
    flag: AtomicBool,
    data: T,
}

/// Proof that the lock of `mutex` is held.
pub struct MutexGuard<'a, T> {
    mutex: &'a Mutex<T>,
}

impl<T> Mutex<T> {
    /// The value behind the lock.
    pub closed spec fn value(&self) -> T {
        self.data
    }

    /// A free lock around `data`.
    pub fn new(data: T) -> (r: Self)
        ensures
            r.value() == data,
    {
        Mutex { flag: AtomicBool::new(false), data }
    }

    /// Takes the lock if it is free. Whether it is free depends on what other
    /// threads did to the atomic flag, which no clause can see; a guard that
    /// comes back holds this lock.
    pub fn try_lock(&self) -> (r: Option<MutexGuard<'_, T>>)
        ensures
            r matches Some(g) ==> *g.lock() == *self,
    {
        if self.flag.compare_exchange(false, true, Ordering::Relaxed, Ordering::Relaxed).is_ok() {
            Some(MutexGuard { mutex: self })
        } else {
            None
        }
    }

    /// Frees the lock.
    pub fn unlock(&self) {
        self.flag.store(false, Ordering::Relaxed);
    }
}

impl<'a, T> MutexGuard<'a, T> {
    /// The lock that is held.
    pub closed spec fn lock(&self) -> &'a Mutex<T> {
        self.mutex
    }

    /// The value behind the held lock.
    pub fn get(&self) -> (r: &T)
        ensures
            *r == self.lock().value(),
    {
        &self.mutex.data
    }
}

} // verus!
