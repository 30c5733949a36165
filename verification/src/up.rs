//! Uniprocessor interior-mutability primitives.
//!
//! On a single cooperative processor, "exclusive access" to a primitive's
//! internal state is a non-reentrant borrow, not a blocking lock: a second
//! attempt to borrow while one is outstanding is a programming-error fault.
//! In this verified model the fault is ruled out statically: the cell hands
//! its contents out through a mutable borrow, so an overlapping second access
//! is rejected at compile time instead of at run time, and every verified
//! caller is known to release the borrow before any suspension point.

use vstd::prelude::*;

verus! {

/// Wraps the state of one kernel object so that exactly one in-progress
/// access to it can exist at a time.
pub struct UPSafeCell<T> {
    inner: T,
}

impl<T> UPSafeCell<T> {
    /// The current contents of the cell.
    pub closed spec fn value(&self) -> T {
        self.inner
    }

    /// Places `value` under the cell's exclusive-access discipline.
    pub fn new(value: T) -> (cell: Self)
        ensures
            cell.value() == value,
    {
        UPSafeCell { inner: value }
    }

    /// Grants the caller the one outstanding mutable access to the contents.
    pub fn exclusive_access(&mut self) -> (r: &mut T)
        ensures
            *r == old(self).value(),
            final(self).value() == *final(r),
    {
        &mut self.inner
    }

    /// Grants shared read-only access to the contents.
    pub fn nomut_access(&self) -> (r: &T)
        ensures
            *r == self.value(),
    {
        &self.inner
    }
}

/// Variant of [`UPSafeCell`] whose contents can also be moved back out, used
/// where an owner tears the wrapped state down.
pub struct UUPSafeCell<T> {
    inner: T,
}

impl<T> UUPSafeCell<T> {
    /// The current contents of the cell.
    pub closed spec fn value(&self) -> T {
        self.inner
    }

    /// Places `value` under the cell's exclusive-access discipline.
    pub fn new(value: T) -> (cell: Self)
        ensures
            cell.value() == value,
    {
        UUPSafeCell { inner: value }
    }

    /// Grants the caller the one outstanding mutable access to the contents.
    pub fn exclusive_access(&mut self) -> (r: &mut T)
        ensures
            *r == old(self).value(),
            final(self).value() == *final(r),
    {
        &mut self.inner
    }

    /// Grants shared read-only access to the contents.
    pub fn nomut_access(&self) -> (r: &T)
        ensures
            *r == self.value(),
    {
        &self.inner
    }

    /// Moves the contents out, ending the cell's lifetime.
    pub fn unwrap(self) -> (r: T)
        ensures
            r == self.value(),
    {
        self.inner
    }
}

} // verus!
