//! Per-task state as this core observes it: a scheduling status and the
//! resource-accounting table (need and alloc vectors, one entry per resource
//! id of the owning process).
//!
//! The task scheduler itself is an external collaborator; suspending a task
//! and waking it again appear here as transitions of [`TaskStatus`].

use vstd::prelude::*;

verus! {

/// Scheduling-visible state of one task.
#[derive(Clone, Copy, PartialEq, Eq, Structural, Debug)]
pub enum TaskStatus {
    /// Ready to run (or running).
    Runnable,
    /// Yielding the processor and retrying a contended spin mutex; the task
    /// stays on the scheduler's ready queue.
    SpinningOn(usize),
    /// Parked on the wait queue of the blocking mutex with this id.
    BlockedOnMutex(usize),
    /// Parked on the wait queue of the semaphore with this id.
    BlockedOnSemaphore(usize),
    /// Parked on the wait queue of the condition variable with this id.
    BlockedOnCondvar(usize),
    /// Parked until the external timer facility wakes it.
    Sleeping,
}

/// The part of a task control block that this core owns: liveness, status,
/// and the accounting vectors indexed by resource id.
///
/// The vectors of every slot are extended in lock-step with the registry, so
/// `mutex_need.len()` always equals the process's mutex table length, and
/// likewise for semaphores; this is an invariant the deadlock detector
/// relies on, not an optimization.
pub struct TaskControlBlock {
    /// False for a slot whose task has terminated; its accounting is
    /// discarded (all entries zero) and the detector treats it as finished.
    pub alive: bool,
    pub status: TaskStatus,
    /// Outstanding (not yet granted) mutex requests per mutex id.
    pub mutex_need: Vec<usize>,
    /// Currently held units per mutex id (0 or 1).
    pub mutex_alloc: Vec<usize>,
    /// Outstanding semaphore requests per semaphore id.
    pub semaphore_need: Vec<usize>,
    /// Currently held units per semaphore id.
    pub semaphore_alloc: Vec<usize>,
}

/// Every entry of `s` is zero.
pub open spec fn all_zero(s: Seq<usize>) -> bool {
    forall|i: int| 0 <= i < s.len() ==> s[i] == 0
}

impl TaskControlBlock {
    /// A freshly spawned runnable task with one zero accounting entry per
    /// currently-live resource id.
    pub fn new(mutex_count: usize, semaphore_count: usize) -> (task: Self)
        ensures
            task.alive,
            task.status == TaskStatus::Runnable,
            task.mutex_need@.len() == mutex_count,
            task.mutex_alloc@.len() == mutex_count,
            task.semaphore_need@.len() == semaphore_count,
            task.semaphore_alloc@.len() == semaphore_count,
            all_zero(task.mutex_need@),
            all_zero(task.mutex_alloc@),
            all_zero(task.semaphore_need@),
            all_zero(task.semaphore_alloc@),
    {
        let task = TaskControlBlock {
            alive: true,
            status: TaskStatus::Runnable,
            mutex_need: vec![0; mutex_count],
            mutex_alloc: vec![0; mutex_count],
            semaphore_need: vec![0; semaphore_count],
            semaphore_alloc: vec![0; semaphore_count],
        };
        task
    }

    /// Extends the mutex accounting vectors for a mutex id appended to the
    /// registry.
    pub fn add_mutex(&mut self)
        ensures
            final(self).mutex_need@ == old(self).mutex_need@.push(0),
            final(self).mutex_alloc@ == old(self).mutex_alloc@.push(0),
            final(self).alive == old(self).alive,
            final(self).status == old(self).status,
            final(self).semaphore_need@ == old(self).semaphore_need@,
            final(self).semaphore_alloc@ == old(self).semaphore_alloc@,
    {
        self.mutex_need.push(0);
        self.mutex_alloc.push(0);
    }

    /// Clears the mutex accounting entries for a mutex id reused from a
    /// freed registry slot.
    pub fn reset_mutex(&mut self, id: usize)
        requires
            id < old(self).mutex_need@.len(),
            id < old(self).mutex_alloc@.len(),
        ensures
            final(self).mutex_need@ == old(self).mutex_need@.update(id as int, 0usize),
            final(self).mutex_alloc@ == old(self).mutex_alloc@.update(id as int, 0usize),
            final(self).alive == old(self).alive,
            final(self).status == old(self).status,
            final(self).semaphore_need@ == old(self).semaphore_need@,
            final(self).semaphore_alloc@ == old(self).semaphore_alloc@,
    {
        self.mutex_need[id] = 0;
        self.mutex_alloc[id] = 0;
    }

    /// Extends the semaphore accounting vectors for a semaphore id appended
    /// to the registry.
    pub fn add_semaphore(&mut self)
        ensures
            final(self).semaphore_need@ == old(self).semaphore_need@.push(0),
            final(self).semaphore_alloc@ == old(self).semaphore_alloc@.push(0),
            final(self).alive == old(self).alive,
            final(self).status == old(self).status,
            final(self).mutex_need@ == old(self).mutex_need@,
            final(self).mutex_alloc@ == old(self).mutex_alloc@,
    {
        self.semaphore_need.push(0);
        self.semaphore_alloc.push(0);
    }

    /// Clears the semaphore accounting entries for a semaphore id reused
    /// from a freed registry slot.
    pub fn reset_semaphore(&mut self, id: usize)
        requires
            id < old(self).semaphore_need@.len(),
            id < old(self).semaphore_alloc@.len(),
        ensures
            final(self).semaphore_need@ == old(self).semaphore_need@.update(id as int, 0usize),
            final(self).semaphore_alloc@ == old(self).semaphore_alloc@.update(id as int, 0usize),
            final(self).alive == old(self).alive,
            final(self).status == old(self).status,
            final(self).mutex_need@ == old(self).mutex_need@,
            final(self).mutex_alloc@ == old(self).mutex_alloc@,
    {
        self.semaphore_need[id] = 0;
        self.semaphore_alloc[id] = 0;
    }
}

} // verus!
