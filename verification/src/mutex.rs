//! Mutual-exclusion locks: a busy-wait (spin) variant and a queue-based
//! blocking variant behind one capability interface.
//!
//! Both variants share the external identity {acquire, release, probe}: the
//! creating call picks the discipline and callers never need to know which
//! variant backs an id. On release, the blocking variant hands ownership
//! straight to the queue head without an intermediate "free" state, so the
//! lock never appears available between release and wakeup.

use vstd::prelude::*;

use std::collections::VecDeque;

use crate::task::TaskControlBlock;
use crate::up::UPSafeCell;

verus! {

/// Outcome of one acquisition attempt, as handed to the scheduler layer.
#[derive(Clone, Copy, PartialEq, Eq, Structural, Debug)]
pub enum LockAttempt {
    /// The lock was free; the caller now owns it.
    Acquired,
    /// The lock was held; the caller was appended to the wait queue and must
    /// be suspended until the releaser hands it ownership.
    Queued,
    /// The lock was held; the caller should yield the processor and retry.
    WouldSpin,
}

/// Capability interface of both mutex disciplines.
///
/// The spec accessors expose the variant's policy: `blocks()` tells whether
/// contention parks the caller on a FIFO queue (blocking variant) or has it
/// spin (busy-wait variant, whose `queue()` is always empty).
pub trait Mutex: Sized {
    /// Stable slot index of this lock in the process registry.
    spec fn id(&self) -> int;

    /// Whether some task currently owns the lock.
    spec fn locked(&self) -> bool;

    /// Task ids parked on the lock, earliest-blocked first.
    spec fn queue(&self) -> Seq<usize>;

    /// Whether contention enqueues and suspends the caller (true) or makes
    /// it spin (false, in which case `queue()` is always empty).
    spec fn blocks(&self) -> bool;

    /// One acquisition attempt by task `tid`.
    fn lock(&mut self, tid: usize) -> (r: LockAttempt)
        ensures
            final(self).id() == old(self).id(),
            final(self).blocks() == old(self).blocks(),
            !old(self).locked() ==> {
                &&& final(self).locked()
                &&& final(self).queue() == old(self).queue()
                &&& r == LockAttempt::Acquired
            },
            old(self).locked() && old(self).blocks() ==> {
                &&& final(self).locked()
                &&& final(self).queue() == old(self).queue().push(tid)
                &&& r == LockAttempt::Queued
            },
            old(self).locked() && !old(self).blocks() ==> {
                &&& final(self).locked()
                &&& final(self).queue() == old(self).queue()
                &&& r == LockAttempt::WouldSpin
            };

    /// Releases the lock. Releasing an unheld mutex is caller misuse (a
    /// fatal assertion in the kernel), so it is excluded here. When the wait
    /// queue is non-empty the head is popped and returned so the scheduler
    /// can wake it; ownership transfers directly and the lock stays locked.
    fn unlock(&mut self) -> (woken: Option<usize>)
        requires
            old(self).locked(),
        ensures
            final(self).id() == old(self).id(),
            final(self).blocks() == old(self).blocks(),
            old(self).queue().len() == 0 ==> {
                &&& !final(self).locked()
                &&& final(self).queue() == old(self).queue()
                &&& woken is None
            },
            old(self).queue().len() > 0 ==> {
                &&& final(self).locked()
                &&& final(self).queue() == old(self).queue().drop_first()
                &&& woken == Some(old(self).queue()[0])
            };

    /// Probe: the number of currently free units, 0 when held and 1 when
    /// free. Used by the deadlock detector as this lock's available count.
    fn test(&self) -> (r: usize)
        ensures
            r == if self.locked() { 0int } else { 1int },
    ;

    /// Records the caller's outstanding request for this lock:
    /// `need[id] += 1`.
    fn add_need(&self, task: &mut TaskControlBlock)
        requires
            self.id() < old(task).mutex_need@.len(),
            old(task).mutex_need@[self.id()] < usize::MAX,
        ensures
            final(task).mutex_need@ == old(task).mutex_need@.update(
                self.id(),
                (old(task).mutex_need@[self.id()] + 1) as usize,
            ),
            final(task).mutex_alloc@ == old(task).mutex_alloc@,
            final(task).semaphore_need@ == old(task).semaphore_need@,
            final(task).semaphore_alloc@ == old(task).semaphore_alloc@,
            final(task).alive == old(task).alive,
            final(task).status == old(task).status,
    ;

    /// Commits a granted request: `need[id] -= 1; alloc[id] += 1`.
    fn need_into_alloc(&self, task: &mut TaskControlBlock)
        requires
            self.id() < old(task).mutex_need@.len(),
            self.id() < old(task).mutex_alloc@.len(),
            old(task).mutex_need@[self.id()] >= 1,
            old(task).mutex_alloc@[self.id()] < usize::MAX,
        ensures
            final(task).mutex_need@ == old(task).mutex_need@.update(
                self.id(),
                (old(task).mutex_need@[self.id()] - 1) as usize,
            ),
            final(task).mutex_alloc@ == old(task).mutex_alloc@.update(
                self.id(),
                (old(task).mutex_alloc@[self.id()] + 1) as usize,
            ),
            final(task).semaphore_need@ == old(task).semaphore_need@,
            final(task).semaphore_alloc@ == old(task).semaphore_alloc@,
            final(task).alive == old(task).alive,
            final(task).status == old(task).status,
    ;

    /// Returns a held unit on release: `alloc[id] -= 1`.
    fn release_alloc(&self, task: &mut TaskControlBlock)
        requires
            self.id() < old(task).mutex_alloc@.len(),
            old(task).mutex_alloc@[self.id()] >= 1,
        ensures
            final(task).mutex_alloc@ == old(task).mutex_alloc@.update(
                self.id(),
                (old(task).mutex_alloc@[self.id()] - 1) as usize,
            ),
            final(task).mutex_need@ == old(task).mutex_need@,
            final(task).semaphore_need@ == old(task).semaphore_need@,
            final(task).semaphore_alloc@ == old(task).semaphore_alloc@,
            final(task).alive == old(task).alive,
            final(task).status == old(task).status,
    ;
}

/// State of a spin mutex: only the owned flag.
pub struct MutexSpinInner {
    pub locked: bool,
}

/// Busy-wait mutex: contention makes the caller yield and retry, with no
/// explicit queue — fairness is whatever the scheduler's ready-queue order
/// provides.
pub struct MutexSpin {
    pub id: usize,
    pub inner: UPSafeCell<MutexSpinInner>,
}

impl MutexSpin {
    /// Creates a new unheld spin mutex for registry slot `id`.
    pub fn new(id: usize) -> (m: Self)
        ensures
            m.id() == id,
            !m.locked(),
            !m.blocks(),
    {
        let tmp = MutexSpinInner { locked: false };
        MutexSpin { id, inner: UPSafeCell::new(tmp) }
    }
}

impl Mutex for MutexSpin {
    open spec fn id(&self) -> int {
        self.id as int
    }

    open spec fn locked(&self) -> bool {
        self.inner.value().locked
    }

    open spec fn queue(&self) -> Seq<usize> {
        Seq::empty()
    }

    open spec fn blocks(&self) -> bool {
        false
    }

    fn lock(&mut self, tid: usize) -> (r: LockAttempt) {
        let inner = self.inner.exclusive_access();
        if inner.locked {
            LockAttempt::WouldSpin
        } else {
            inner.locked = true;
            LockAttempt::Acquired
        }
    }

    fn unlock(&mut self) -> (woken: Option<usize>) {
        let inner = self.inner.exclusive_access();
        inner.locked = false;
        None
    }

    fn test(&self) -> (r: usize) {
        if self.inner.nomut_access().locked {
            0
        } else {
            1
        }
    }

    fn add_need(&self, task: &mut TaskControlBlock) {
        task.mutex_need[self.id] = task.mutex_need[self.id] + 1;
    }

    fn need_into_alloc(&self, task: &mut TaskControlBlock) {
        task.mutex_need[self.id] = task.mutex_need[self.id] - 1;
        task.mutex_alloc[self.id] = task.mutex_alloc[self.id] + 1;
    }

    fn release_alloc(&self, task: &mut TaskControlBlock) {
        task.mutex_alloc[self.id] = task.mutex_alloc[self.id] - 1;
    }
}

/// State of a blocking mutex: the owned flag and the FIFO wait queue of
/// parked task ids.
pub struct MutexBlockingInner {
    pub locked: bool,
    pub wait_queue: VecDeque<usize>,
}

/// Queue-based blocking mutex: a contended caller is appended to the tail of
/// the wait queue and suspended; release hands ownership directly to the
/// queue head.
pub struct MutexBlocking {
    pub id: usize,
    pub inner: UPSafeCell<MutexBlockingInner>,
}

impl MutexBlocking {
    /// Creates a new unheld blocking mutex for registry slot `id`.
    pub fn new(id: usize) -> (m: Self)
        ensures
            m.id() == id,
            !m.locked(),
            m.queue() == Seq::<usize>::empty(),
            m.blocks(),
    {
        let tmp = MutexBlockingInner { locked: false, wait_queue: VecDeque::new() };
        MutexBlocking { id, inner: UPSafeCell::new(tmp) }
    }
}

impl Mutex for MutexBlocking {
    open spec fn id(&self) -> int {
        self.id as int
    }

    open spec fn locked(&self) -> bool {
        self.inner.value().locked
    }

    open spec fn queue(&self) -> Seq<usize> {
        self.inner.value().wait_queue@
    }

    open spec fn blocks(&self) -> bool {
        true
    }

    fn lock(&mut self, tid: usize) -> (r: LockAttempt) {
        let inner = self.inner.exclusive_access();
        if inner.locked {
            inner.wait_queue.push_back(tid);
            LockAttempt::Queued
        } else {
            inner.locked = true;
            LockAttempt::Acquired
        }
    }

    fn unlock(&mut self) -> (woken: Option<usize>) {
        let inner = self.inner.exclusive_access();
        if let Some(waking_task) = inner.wait_queue.pop_front() {
            Some(waking_task)
        } else {
            inner.locked = false;
            None
        }
    }

    fn test(&self) -> (r: usize) {
        if self.inner.nomut_access().locked {
            0
        } else {
            1
        }
    }

    fn add_need(&self, task: &mut TaskControlBlock) {
        task.mutex_need[self.id] = task.mutex_need[self.id] + 1;
    }

    fn need_into_alloc(&self, task: &mut TaskControlBlock) {
        task.mutex_need[self.id] = task.mutex_need[self.id] - 1;
        task.mutex_alloc[self.id] = task.mutex_alloc[self.id] + 1;
    }

    fn release_alloc(&self, task: &mut TaskControlBlock) {
        task.mutex_alloc[self.id] = task.mutex_alloc[self.id] - 1;
    }
}

/// A registry slot's mutex: one of the two disciplines, dispatched to the
/// shared capability interface.
pub enum MutexInstance {
    Spin(MutexSpin),
    Blocking(MutexBlocking),
}

impl MutexInstance {
    /// Stable slot index of this lock in the process registry.
    pub open spec fn id(&self) -> int {
        match self {
            MutexInstance::Spin(m) => m.id(),
            MutexInstance::Blocking(m) => m.id(),
        }
    }

    /// Whether some task currently owns the lock.
    pub open spec fn locked(&self) -> bool {
        match self {
            MutexInstance::Spin(m) => m.locked(),
            MutexInstance::Blocking(m) => m.locked(),
        }
    }

    /// Task ids parked on the lock, earliest-blocked first.
    pub open spec fn queue(&self) -> Seq<usize> {
        match self {
            MutexInstance::Spin(m) => m.queue(),
            MutexInstance::Blocking(m) => m.queue(),
        }
    }

    /// Whether contention enqueues and suspends the caller.
    pub open spec fn blocks(&self) -> bool {
        match self {
            MutexInstance::Spin(m) => m.blocks(),
            MutexInstance::Blocking(m) => m.blocks(),
        }
    }

    /// One acquisition attempt by task `tid` (see [`Mutex::lock`]).
    pub fn lock(&mut self, tid: usize) -> (r: LockAttempt)
        ensures
            final(self).id() == old(self).id(),
            final(self).blocks() == old(self).blocks(),
            !old(self).locked() ==> {
                &&& final(self).locked()
                &&& final(self).queue() == old(self).queue()
                &&& r == LockAttempt::Acquired
            },
            old(self).locked() && old(self).blocks() ==> {
                &&& final(self).locked()
                &&& final(self).queue() == old(self).queue().push(tid)
                &&& r == LockAttempt::Queued
            },
            old(self).locked() && !old(self).blocks() ==> {
                &&& final(self).locked()
                &&& final(self).queue() == old(self).queue()
                &&& r == LockAttempt::WouldSpin
            },
    {
        match self {
            MutexInstance::Spin(m) => m.lock(tid),
            MutexInstance::Blocking(m) => m.lock(tid),
        }
    }

    /// Releases the lock (see [`Mutex::unlock`]).
    pub fn unlock(&mut self) -> (woken: Option<usize>)
        requires
            old(self).locked(),
        ensures
            final(self).id() == old(self).id(),
            final(self).blocks() == old(self).blocks(),
            old(self).queue().len() == 0 ==> {
                &&& !final(self).locked()
                &&& final(self).queue() == old(self).queue()
                &&& woken is None
            },
            old(self).queue().len() > 0 ==> {
                &&& final(self).locked()
                &&& final(self).queue() == old(self).queue().drop_first()
                &&& woken == Some(old(self).queue()[0])
            },
    {
        match self {
            MutexInstance::Spin(m) => m.unlock(),
            MutexInstance::Blocking(m) => m.unlock(),
        }
    }

    /// Probe: free units, 0 when held and 1 when free (see [`Mutex::test`]).
    pub fn test(&self) -> (r: usize)
        ensures
            r == if self.locked() { 0int } else { 1int },
    {
        match self {
            MutexInstance::Spin(m) => m.test(),
            MutexInstance::Blocking(m) => m.test(),
        }
    }

    /// Records the caller's outstanding request (see [`Mutex::add_need`]).
    pub fn add_need(&self, task: &mut TaskControlBlock)
        requires
            self.id() < old(task).mutex_need@.len(),
            old(task).mutex_need@[self.id()] < usize::MAX,
        ensures
            final(task).mutex_need@ == old(task).mutex_need@.update(
                self.id(),
                (old(task).mutex_need@[self.id()] + 1) as usize,
            ),
            final(task).mutex_alloc@ == old(task).mutex_alloc@,
            final(task).semaphore_need@ == old(task).semaphore_need@,
            final(task).semaphore_alloc@ == old(task).semaphore_alloc@,
            final(task).alive == old(task).alive,
            final(task).status == old(task).status,
    {
        match self {
            MutexInstance::Spin(m) => m.add_need(task),
            MutexInstance::Blocking(m) => m.add_need(task),
        }
    }

    /// Commits a granted request (see [`Mutex::need_into_alloc`]).
    pub fn need_into_alloc(&self, task: &mut TaskControlBlock)
        requires
            self.id() < old(task).mutex_need@.len(),
            self.id() < old(task).mutex_alloc@.len(),
            old(task).mutex_need@[self.id()] >= 1,
            old(task).mutex_alloc@[self.id()] < usize::MAX,
        ensures
            final(task).mutex_need@ == old(task).mutex_need@.update(
                self.id(),
                (old(task).mutex_need@[self.id()] - 1) as usize,
            ),
            final(task).mutex_alloc@ == old(task).mutex_alloc@.update(
                self.id(),
                (old(task).mutex_alloc@[self.id()] + 1) as usize,
            ),
            final(task).semaphore_need@ == old(task).semaphore_need@,
            final(task).semaphore_alloc@ == old(task).semaphore_alloc@,
            final(task).alive == old(task).alive,
            final(task).status == old(task).status,
    {
        match self {
            MutexInstance::Spin(m) => m.need_into_alloc(task),
            MutexInstance::Blocking(m) => m.need_into_alloc(task),
        }
    }

    /// Returns a held unit on release (see [`Mutex::release_alloc`]).
    pub fn release_alloc(&self, task: &mut TaskControlBlock)
        requires
            self.id() < old(task).mutex_alloc@.len(),
            old(task).mutex_alloc@[self.id()] >= 1,
        ensures
            final(task).mutex_alloc@ == old(task).mutex_alloc@.update(
                self.id(),
                (old(task).mutex_alloc@[self.id()] - 1) as usize,
            ),
            final(task).mutex_need@ == old(task).mutex_need@,
            final(task).semaphore_need@ == old(task).semaphore_need@,
            final(task).semaphore_alloc@ == old(task).semaphore_alloc@,
            final(task).alive == old(task).alive,
            final(task).status == old(task).status,
    {
        match self {
            MutexInstance::Spin(m) => m.release_alloc(task),
            MutexInstance::Blocking(m) => m.release_alloc(task),
        }
    }
}

} // verus!
