//! Counting semaphore: a signed counter with a FIFO wait queue.
//!
//! The count may go negative; `-count` then equals the number of tasks
//! parked waiting for a unit. Capacity is the value supplied at creation and
//! is never separately enforced beyond that sign convention.

use vstd::prelude::*;

use std::collections::VecDeque;

use crate::task::TaskControlBlock;
use crate::up::UPSafeCell;

verus! {

/// State of a semaphore: the signed unit count, the FIFO queue of parked
/// task ids, and ghost operation counters used to state conservation.
pub struct SemaphoreInner {
    pub count: isize,
    pub wait_queue: VecDeque<usize>,
    /// The unit count supplied at creation.
    pub initial: Ghost<int>,
    /// Completed `up` operations so far.
    pub ups: Ghost<int>,
    /// Completed `down` operations so far.
    pub downs: Ghost<int>,
}

/// Counting semaphore addressed by a stable registry slot index.
pub struct Semaphore {
    pub id: usize,
    pub inner: UPSafeCell<SemaphoreInner>,
}

impl Semaphore {
    /// Stable slot index of this semaphore in the process registry.
    pub open spec fn sid(&self) -> int {
        self.id as int
    }

    /// The current signed unit count.
    pub open spec fn count(&self) -> int {
        self.inner.value().count as int
    }

    /// Task ids parked waiting for a unit, earliest-blocked first.
    pub open spec fn queue(&self) -> Seq<usize> {
        self.inner.value().wait_queue@
    }

    /// The unit count supplied at creation.
    pub open spec fn initial(&self) -> int {
        self.inner.value().initial@
    }

    /// Completed `up` operations so far.
    pub open spec fn ups(&self) -> int {
        self.inner.value().ups@
    }

    /// Completed `down` operations so far.
    pub open spec fn downs(&self) -> int {
        self.inner.value().downs@
    }

    /// Conservation: at any instant the count equals the initial count plus
    /// completed ups minus completed downs. Established at creation and
    /// preserved by both operations.
    pub open spec fn conserved(&self) -> bool {
        self.count() == self.initial() + self.ups() - self.downs()
    }

    /// The sign convention tying the counter to the queue: a negative count
    /// counts exactly the parked waiters, a non-negative one means none.
    pub open spec fn queue_matches_count(&self) -> bool {
        self.queue().len() == if self.count() < 0 {
            -self.count()
        } else {
            0int
        }
    }

    /// Creates a new semaphore with `res_count` units for registry slot
    /// `id`. The count is bounded by the machine's signed range.
    pub fn new(res_count: usize, id: usize) -> (s: Self)
        requires
            res_count <= isize::MAX,
        ensures
            s.sid() == id,
            s.count() == res_count,
            s.queue() == Seq::<usize>::empty(),
            s.initial() == res_count,
            s.ups() == 0,
            s.downs() == 0,
            s.conserved(),
            s.queue_matches_count(),
    {
        Semaphore {
            id,
            inner: UPSafeCell::new(
                SemaphoreInner {
                    count: res_count as isize,
                    wait_queue: VecDeque::new(),
                    initial: Ghost(res_count as int),
                    ups: Ghost(0),
                    downs: Ghost(0),
                },
            ),
        }
    }

    /// The `up` operation: returns one unit. If the pre-increment count was
    /// negative a waiter exists; the queue head is popped and returned so
    /// the scheduler can wake it, the popped unit being handed to it
    /// directly.
    pub fn up(&mut self) -> (woken: Option<usize>)
        requires
            old(self).count() < isize::MAX,
            old(self).count() < 0 ==> old(self).queue().len() > 0,
        ensures
            final(self).sid() == old(self).sid(),
            final(self).count() == old(self).count() + 1,
            final(self).initial() == old(self).initial(),
            final(self).ups() == old(self).ups() + 1,
            final(self).downs() == old(self).downs(),
            old(self).conserved() ==> final(self).conserved(),
            old(self).count() >= 0 ==> {
                &&& woken is None
                &&& final(self).queue() == old(self).queue()
            },
            old(self).count() < 0 ==> {
                &&& woken == Some(old(self).queue()[0])
                &&& final(self).queue() == old(self).queue().drop_first()
            },
    {
        let inner = self.inner.exclusive_access();
        inner.count = inner.count + 1;
        inner.ups = Ghost(inner.ups@ + 1);
        if inner.count <= 0 {
            let task = inner.wait_queue.pop_front();
            task
        } else {
            None
        }
    }

    /// The `down` operation: takes one unit. If the post-decrement count is
    /// negative the caller is appended to the wait queue and must be
    /// suspended; it receives its unit directly from a later `up`.
    pub fn down(&mut self, tid: usize) -> (blocked: bool)
        requires
            old(self).count() > isize::MIN,
        ensures
            final(self).sid() == old(self).sid(),
            final(self).count() == old(self).count() - 1,
            final(self).initial() == old(self).initial(),
            final(self).ups() == old(self).ups(),
            final(self).downs() == old(self).downs() + 1,
            old(self).conserved() ==> final(self).conserved(),
            old(self).count() <= 0 ==> {
                &&& blocked
                &&& final(self).queue() == old(self).queue().push(tid)
            },
            old(self).count() > 0 ==> {
                &&& !blocked
                &&& final(self).queue() == old(self).queue()
            },
    {
        let inner = self.inner.exclusive_access();
        inner.count = inner.count - 1;
        inner.downs = Ghost(inner.downs@ + 1);
        if inner.count < 0 {
            inner.wait_queue.push_back(tid);
            true
        } else {
            false
        }
    }

    /// Probe: the current signed count. Used by the deadlock detector,
    /// which clamps it at zero to read the available units.
    pub fn test(&self) -> (r: isize)
        ensures
            r == self.count(),
    {
        self.inner.nomut_access().count
    }

    /// Records the caller's outstanding request for a unit:
    /// `need[id] += 1`.
    pub fn add_need(&self, task: &mut TaskControlBlock)
        requires
            self.sid() < old(task).semaphore_need@.len(),
            old(task).semaphore_need@[self.sid()] < usize::MAX,
        ensures
            final(task).semaphore_need@ == old(task).semaphore_need@.update(
                self.sid(),
                (old(task).semaphore_need@[self.sid()] + 1) as usize,
            ),
            final(task).semaphore_alloc@ == old(task).semaphore_alloc@,
            final(task).mutex_need@ == old(task).mutex_need@,
            final(task).mutex_alloc@ == old(task).mutex_alloc@,
            final(task).alive == old(task).alive,
            final(task).status == old(task).status,
    {
        task.semaphore_need[self.id] = task.semaphore_need[self.id] + 1;
    }

    /// Commits a granted unit: `need[id] -= 1; alloc[id] += 1`.
    pub fn need_into_alloc(&self, task: &mut TaskControlBlock)
        requires
            self.sid() < old(task).semaphore_need@.len(),
            self.sid() < old(task).semaphore_alloc@.len(),
            old(task).semaphore_need@[self.sid()] >= 1,
            old(task).semaphore_alloc@[self.sid()] < usize::MAX,
        ensures
            final(task).semaphore_need@ == old(task).semaphore_need@.update(
                self.sid(),
                (old(task).semaphore_need@[self.sid()] - 1) as usize,
            ),
            final(task).semaphore_alloc@ == old(task).semaphore_alloc@.update(
                self.sid(),
                (old(task).semaphore_alloc@[self.sid()] + 1) as usize,
            ),
            final(task).mutex_need@ == old(task).mutex_need@,
            final(task).mutex_alloc@ == old(task).mutex_alloc@,
            final(task).alive == old(task).alive,
            final(task).status == old(task).status,
    {
        task.semaphore_need[self.id] = task.semaphore_need[self.id] - 1;
        task.semaphore_alloc[self.id] = task.semaphore_alloc[self.id] + 1;
    }

    /// Returns a held unit on release: `alloc[id] -= 1`.
    pub fn release_alloc(&self, task: &mut TaskControlBlock)
        requires
            self.sid() < old(task).semaphore_alloc@.len(),
            old(task).semaphore_alloc@[self.sid()] >= 1,
        ensures
            final(task).semaphore_alloc@ == old(task).semaphore_alloc@.update(
                self.sid(),
                (old(task).semaphore_alloc@[self.sid()] - 1) as usize,
            ),
            final(task).semaphore_need@ == old(task).semaphore_need@,
            final(task).mutex_need@ == old(task).mutex_need@,
            final(task).mutex_alloc@ == old(task).mutex_alloc@,
            final(task).alive == old(task).alive,
            final(task).status == old(task).status,
    {
        task.semaphore_alloc[self.id] = task.semaphore_alloc[self.id] - 1;
    }
}

} // verus!
