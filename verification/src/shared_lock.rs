//! Shared data under a lock that admits many readers or one writer.
//!
//! A `SharedRwLock` stands for one lock. Any number of values can be put
//! under it, each in a `Locked` of its own. A `Locked` value is read with a
//! read guard of its lock and replaced with a write guard of its lock; the
//! guard of another lock does not open it.
//!
//! This module keeps the book of which value is under which lock. It makes
//! no thread wait: a value is replaced through an exclusive borrow, and so
//! never while it is read.

use vstd::prelude::*;
use std::sync::Arc;

verus! {

/// A lock, told from other locks by its number.
#[derive(Clone, Copy, Debug, PartialEq, Eq, Structural)]
pub struct SharedRwLock {
    pub id: u64,
}

/// The token that the lock it names is held for reading.
#[derive(Debug)]
pub struct SharedRwLockReadGuard<'a> {
    lock: &'a SharedRwLock,
}

/// The token that the lock it names is held for writing.
#[derive(Debug)]
pub struct SharedRwLockWriteGuard<'a> {
    lock: &'a SharedRwLock,
}

/// A value under a `SharedRwLock`.
#[derive(Debug)]
pub struct Locked<T> {
    shared_lock: SharedRwLock,
    data: T,
}

impl SharedRwLock {
    /// The lock with the given number.
    pub fn new(id: u64) -> (lock: SharedRwLock)
        ensures
            lock.id == id,
    {
        SharedRwLock { id }
    }

    /// Puts `data` under this lock.
    pub fn wrap<T>(&self, data: T) -> (locked: Locked<T>)
        ensures
            locked.lock() == *self,
            locked.data() == data,
    {
        Locked { shared_lock: *self, data }
    }

    /// Takes the lock for reading.
    pub fn read(&self) -> (guard: SharedRwLockReadGuard<'_>)
        ensures
            guard.lock() == *self,
    {
        SharedRwLockReadGuard { lock: self }
    }

    /// Takes the lock for writing.
    pub fn write(&mut self) -> (guard: SharedRwLockWriteGuard<'_>)
        ensures
            guard.lock() == *old(self),
            *final(self) == *old(self),
    {
        SharedRwLockWriteGuard { lock: &*self }
    }
}

impl<'a> SharedRwLockReadGuard<'a> {
    /// The lock that is held.
    pub closed spec fn lock(&self) -> SharedRwLock {
        *self.lock
    }
}

impl<'a> SharedRwLockWriteGuard<'a> {
    /// The lock that is held.
    pub closed spec fn lock(&self) -> SharedRwLock {
        *self.lock
    }
}

/// What a value under a lock is in contracts: the lock and the view of the
/// value.
pub struct LockedView<V> {
    pub lock: SharedRwLock,
    pub data: V,
}

impl<T: View> View for Locked<T> {
    type V = LockedView<T::V>;

    open spec fn view(&self) -> LockedView<T::V> {
        LockedView { lock: self.lock(), data: self.data()@ }
    }
}

impl<T> Locked<T> {
    /// The lock that the value is under.
    pub closed spec fn lock(&self) -> SharedRwLock {
        self.shared_lock
    }

    /// The value under the lock.
    pub closed spec fn data(&self) -> T {
        self.data
    }

    /// Whether `guard` holds the lock that this value is under.
    pub open spec fn same_lock_as(&self, guard: &SharedRwLockReadGuard) -> bool {
        self.lock() == guard.lock()
    }

    /// Reads the value.
    pub fn read_with<'a>(&'a self, guard: &'a SharedRwLockReadGuard) -> (data: &'a T)
        requires
            self.same_lock_as(guard),
        ensures
            *data == self.data(),
    {
        &self.data
    }

    /// Whether `guard` holds the lock that this value is under.
    pub fn is_under(&self, guard: &SharedRwLockReadGuard) -> (same: bool)
        ensures
            same == self.same_lock_as(guard),
    {
        self.shared_lock.id == guard.lock.id
    }

    /// Replaces the value.
    pub fn write_with(&mut self, guard: &mut SharedRwLockWriteGuard, data: T)
        requires
            old(self).lock() == old(guard).lock(),
        ensures
            final(self).lock() == old(self).lock(),
            final(self).data() == data,
            final(guard).lock() == old(guard).lock(),
    {
        self.data = data;
    }
}

/// Calls `Arc::clone`, which hands back one more pointer to the value that
/// `shared` points to.
#[verifier::external_body]
pub(crate) fn share<T>(shared: &Arc<T>) -> (other: Arc<T>)
    ensures
        other == *shared,
{
    Arc::clone(shared)
}

} // verus!
