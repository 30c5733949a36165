//! Condition variable: a FIFO wait queue decoupled from any single lock,
//! used as a pure rendezvous point. The associated mutex is supplied by the
//! caller at wait time and is not stored; a signal with no waiters is a
//! no-op, not buffered.

use vstd::prelude::*;

use std::collections::VecDeque;

use crate::up::UPSafeCell;

verus! {

/// State of a condition variable: only the FIFO queue of parked task ids.
pub struct CondvarInner {
    pub wait_queue: VecDeque<usize>,
}

/// Condition variable; holds no count and no ownership.
pub struct Condvar {
    pub inner: UPSafeCell<CondvarInner>,
}

impl Condvar {
    /// Task ids parked on the condition variable, earliest-blocked first.
    pub open spec fn queue(&self) -> Seq<usize> {
        self.inner.value().wait_queue@
    }

    /// Creates a new condition variable with an empty wait queue.
    pub fn new() -> (cv: Self)
        ensures
            cv.queue() == Seq::<usize>::empty(),
    {
        Condvar { inner: UPSafeCell::new(CondvarInner { wait_queue: VecDeque::new() }) }
    }

    /// The queue half of `wait`: appends the caller. Releasing the caller's
    /// mutex before this and suspending after it are the syscall layer's
    /// steps; the mutex is not re-acquired by this primitive when the task
    /// is later signalled.
    pub fn wait(&mut self, tid: usize)
        ensures
            final(self).queue() == old(self).queue().push(tid),
    {
        let inner = self.inner.exclusive_access();
        inner.wait_queue.push_back(tid);
    }

    /// Pops and returns the earliest waiter so the scheduler can wake it; a
    /// signal with an empty wait queue does nothing.
    pub fn signal(&mut self) -> (woken: Option<usize>)
        ensures
            old(self).queue().len() == 0 ==> {
                &&& woken is None
                &&& final(self).queue() == old(self).queue()
            },
            old(self).queue().len() > 0 ==> {
                &&& woken == Some(old(self).queue()[0])
                &&& final(self).queue() == old(self).queue().drop_first()
            },
    {
        let inner = self.inner.exclusive_access();
        inner.wait_queue.pop_front()
    }
}

} // verus!
