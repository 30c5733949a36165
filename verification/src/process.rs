//! Process-owned shared state: the resource registries (slot tables of
//! mutexes, semaphores and condition variables, each addressed by a small
//! integer id that is recycled when a slot is freed), the task table with
//! its per-task accounting vectors, and the process-wide deadlock-detection
//! flag.
//!
//! [`ProcessState::wf`] is the global invariant every operation of this core
//! preserves. Among its clauses are the two central safety laws:
//! mutual exclusion ([`ProcessState::mutex_exclusion`]: at most one task
//! holds a given mutex at any instant) and accounting conservation
//! ([`ProcessState::sem_slot_ok`]: a semaphore's initial count splits
//! exactly into its current count, the units tasks hold, and the parked
//! waiters).

use vstd::prelude::*;

use crate::condvar::Condvar;
use crate::mutex::MutexInstance;
use crate::semaphore::Semaphore;
use crate::task::all_zero;
use crate::task::TaskControlBlock;
use crate::task::TaskStatus;

verus! {

/// The synchronization state a process shares among its tasks.
pub struct ProcessState {
    /// Task slots; a slot whose task has terminated stays, marked dead.
    pub tasks: Vec<TaskControlBlock>,
    /// Mutex registry; a `None` slot is a free id available for reuse.
    pub mutex_list: Vec<Option<MutexInstance>>,
    /// Semaphore registry.
    pub semaphore_list: Vec<Option<Semaphore>>,
    /// Condition-variable registry.
    pub condvar_list: Vec<Option<Condvar>>,
    /// When false, the deadlock detector is bypassed entirely.
    pub deadlock_detect: bool,
}

/// The mutex-need entry a task's status dictates: exactly one outstanding
/// request while the task is acquiring (spinning or parked) that mutex,
/// none otherwise.
pub open spec fn mutex_need_expected(status: TaskStatus, m: int) -> int {
    match status {
        TaskStatus::SpinningOn(mm) => if mm == m {
            1int
        } else {
            0int
        },
        TaskStatus::BlockedOnMutex(mm) => if mm == m {
            1int
        } else {
            0int
        },
        _ => 0int,
    }
}

/// The semaphore-need entry a task's status dictates.
pub open spec fn sem_need_expected(status: TaskStatus, s: int) -> int {
    match status {
        TaskStatus::BlockedOnSemaphore(ss) => if ss == s {
            1int
        } else {
            0int
        },
        _ => 0int,
    }
}

/// Sum of `semaphore_alloc[s]` over the first `k` task slots.
pub open spec fn sem_alloc_total_upto(tasks: Seq<TaskControlBlock>, s: int, k: int) -> int
    decreases k,
{
    if k <= 0 {
        0
    } else {
        sem_alloc_total_upto(tasks, s, k - 1) + tasks[k - 1].semaphore_alloc@[s] as int
    }
}

/// Sum of `semaphore_alloc[s]` over all task slots.
pub open spec fn sem_alloc_total(tasks: Seq<TaskControlBlock>, s: int) -> int {
    sem_alloc_total_upto(tasks, s, tasks.len() as int)
}

/// The partial sum is non-negative.
pub proof fn lemma_sem_total_nonneg(tasks: Seq<TaskControlBlock>, s: int, k: int)
    ensures
        sem_alloc_total_upto(tasks, s, k) >= 0,
    decreases k,
{
    if k > 0 {
        lemma_sem_total_nonneg(tasks, s, k - 1);
    }
}

/// Two task tables whose `semaphore_alloc[s]` columns agree have the same
/// partial sums.
pub proof fn lemma_sem_total_congruent(
    t1: Seq<TaskControlBlock>,
    t2: Seq<TaskControlBlock>,
    s: int,
    k: int,
)
    requires
        forall|t: int|
            0 <= t < k ==> (#[trigger] t1[t]).semaphore_alloc@[s] == t2[t].semaphore_alloc@[s],
    ensures
        sem_alloc_total_upto(t1, s, k) == sem_alloc_total_upto(t2, s, k),
    decreases k,
{
    if k > 0 {
        lemma_sem_total_congruent(t1, t2, s, k - 1);
    }
}

proof fn lemma_sem_total_update_upto(
    tasks: Seq<TaskControlBlock>,
    t: int,
    tcb: TaskControlBlock,
    s: int,
    k: int,
)
    requires
        0 <= t < tasks.len(),
        k <= tasks.len(),
    ensures
        sem_alloc_total_upto(tasks.update(t, tcb), s, k) == sem_alloc_total_upto(tasks, s, k)
            + if t < k {
            tcb.semaphore_alloc@[s] - tasks[t].semaphore_alloc@[s]
        } else {
            0int
        },
    decreases k,
{
    if k > 0 {
        lemma_sem_total_update_upto(tasks, t, tcb, s, k - 1);
    }
}

/// Replacing one task slot shifts the column sum by the entry's change.
pub proof fn lemma_sem_total_update(
    tasks: Seq<TaskControlBlock>,
    t: int,
    tcb: TaskControlBlock,
    s: int,
)
    requires
        0 <= t < tasks.len(),
    ensures
        sem_alloc_total(tasks.update(t, tcb), s) == sem_alloc_total(tasks, s)
            + tcb.semaphore_alloc@[s] - tasks[t].semaphore_alloc@[s],
{
    lemma_sem_total_update_upto(tasks, t, tcb, s, tasks.len() as int);
}

/// Appending a task slot adds its entry to the column sum.
pub proof fn lemma_sem_total_push(tasks: Seq<TaskControlBlock>, tcb: TaskControlBlock, s: int)
    ensures
        sem_alloc_total(tasks.push(tcb), s) == sem_alloc_total(tasks, s)
            + tcb.semaphore_alloc@[s],
{
    lemma_sem_total_congruent(tasks.push(tcb), tasks, s, tasks.len() as int);
}

proof fn lemma_sem_entry_le_total_upto(tasks: Seq<TaskControlBlock>, t: int, s: int, k: int)
    requires
        0 <= t < k,
    ensures
        tasks[t].semaphore_alloc@[s] <= sem_alloc_total_upto(tasks, s, k),
    decreases k,
{
    lemma_sem_total_nonneg(tasks, s, k - 1);
    if t < k - 1 {
        lemma_sem_entry_le_total_upto(tasks, t, s, k - 1);
    }
}

/// One task's entry is at most the column sum.
pub proof fn lemma_sem_entry_le_total(tasks: Seq<TaskControlBlock>, t: int, s: int)
    requires
        0 <= t < tasks.len(),
    ensures
        tasks[t].semaphore_alloc@[s] <= sem_alloc_total(tasks, s),
{
    lemma_sem_entry_le_total_upto(tasks, t, s, tasks.len() as int);
}

impl ProcessState {
    /// Number of task slots.
    pub open spec fn n_tasks(&self) -> int {
        self.tasks@.len() as int
    }

    /// Number of mutex registry slots.
    pub open spec fn n_mutexes(&self) -> int {
        self.mutex_list@.len() as int
    }

    /// Number of semaphore registry slots.
    pub open spec fn n_semaphores(&self) -> int {
        self.semaphore_list@.len() as int
    }

    /// Number of condition-variable registry slots.
    pub open spec fn n_condvars(&self) -> int {
        self.condvar_list@.len() as int
    }

    /// Task slot `t` exists and its task has not terminated.
    pub open spec fn task_live(&self, t: int) -> bool {
        0 <= t < self.n_tasks() && self.tasks@[t].alive
    }

    /// Task `t` currently holds mutex `m`.
    pub open spec fn holds_mutex(&self, t: int, m: int) -> bool {
        self.tasks@[t].mutex_alloc@[m] >= 1
    }

    /// Every task's accounting vectors are extended in lock-step with the
    /// registries: one entry per resource slot.
    pub open spec fn lens_ok(&self) -> bool {
        forall|t: int|
            0 <= t < self.n_tasks() ==> {
                let tcb = #[trigger] self.tasks@[t];
                &&& tcb.mutex_need@.len() == self.n_mutexes()
                &&& tcb.mutex_alloc@.len() == self.n_mutexes()
                &&& tcb.semaphore_need@.len() == self.n_semaphores()
                &&& tcb.semaphore_alloc@.len() == self.n_semaphores()
            }
    }

    /// A terminated task's accounting is discarded: all entries zero, no
    /// outstanding acquisition.
    pub open spec fn dead_tasks_clear(&self) -> bool {
        forall|t: int|
            0 <= t < self.n_tasks() && !(#[trigger] self.tasks@[t]).alive ==> {
                let tcb = self.tasks@[t];
                &&& all_zero(tcb.mutex_need@)
                &&& all_zero(tcb.mutex_alloc@)
                &&& all_zero(tcb.semaphore_need@)
                &&& all_zero(tcb.semaphore_alloc@)
                &&& tcb.status == TaskStatus::Runnable
            }
    }

    /// A live task's status points at a live registry slot of the matching
    /// kind, and a task acquiring a mutex does not already hold it.
    pub open spec fn statuses_ok(&self) -> bool {
        forall|t: int|
            self.task_live(t) ==> match (#[trigger] self.tasks@[t]).status {
                TaskStatus::Runnable => true,
                TaskStatus::Sleeping => true,
                TaskStatus::SpinningOn(m) => {
                    &&& m < self.n_mutexes()
                    &&& match self.mutex_list@[m as int] {
                        Some(mx) => !mx.blocks(),
                        None => false,
                    }
                    &&& self.tasks@[t].mutex_alloc@[m as int] == 0
                },
                TaskStatus::BlockedOnMutex(m) => {
                    &&& m < self.n_mutexes()
                    &&& match self.mutex_list@[m as int] {
                        Some(mx) => mx.blocks(),
                        None => false,
                    }
                    &&& self.tasks@[t].mutex_alloc@[m as int] == 0
                },
                TaskStatus::BlockedOnSemaphore(s) => {
                    &&& s < self.n_semaphores()
                    &&& self.semaphore_list@[s as int] is Some
                },
                TaskStatus::BlockedOnCondvar(c) => {
                    &&& c < self.n_condvars()
                    &&& self.condvar_list@[c as int] is Some
                },
            }
    }

    /// A live task's mutex-need entries follow its status: exactly one
    /// outstanding request for the mutex it is acquiring, none elsewhere.
    pub open spec fn mutex_needs_ok(&self) -> bool {
        forall|t: int, m: int|
            self.task_live(t) && 0 <= m < self.n_mutexes() ==> (#[trigger] self.tasks@[t].mutex_need@[m])
                == mutex_need_expected(self.tasks@[t].status, m)
    }

    /// A live task's semaphore-need entries follow its status.
    pub open spec fn sem_needs_ok(&self) -> bool {
        forall|t: int, s: int|
            self.task_live(t) && 0 <= s < self.n_semaphores() ==> (#[trigger] self.tasks@[t].semaphore_need@[s])
                == sem_need_expected(self.tasks@[t].status, s)
    }

    /// Mutex ownership is binary: no alloc entry exceeds one unit.
    pub open spec fn mutex_alloc_bounded(&self) -> bool {
        forall|t: int, m: int|
            self.task_live(t) && 0 <= m < self.n_mutexes() ==> (#[trigger] self.tasks@[t].mutex_alloc@[m])
                <= 1
    }

    /// Mutual exclusion: at most one live task holds a given mutex at any
    /// instant.
    pub open spec fn mutex_exclusion(&self) -> bool {
        forall|t1: int, t2: int, m: int|
            self.task_live(t1) && self.task_live(t2) && t1 != t2 && 0 <= m < self.n_mutexes()
                ==> !(#[trigger] self.holds_mutex(t1, m) && #[trigger] self.holds_mutex(t2, m))
    }

    /// Well-formedness of one mutex registry slot.
    pub open spec fn mutex_slot_ok(&self, m: int) -> bool {
        match self.mutex_list@[m] {
            None => forall|t: int|
                self.task_live(t) ==> (#[trigger] self.tasks@[t]).mutex_alloc@[m] == 0,
            Some(mx) => {
                &&& mx.id() == m
                &&& (!mx.locked() ==> mx.queue().len() == 0)
                &&& (!mx.locked() ==> forall|t: int|
                    self.task_live(t) ==> (#[trigger] self.tasks@[t]).mutex_alloc@[m] == 0)
                &&& (forall|i: int|
                    0 <= i < mx.queue().len() ==> {
                        let w = (#[trigger] mx.queue()[i]) as int;
                        &&& self.task_live(w)
                        &&& self.tasks@[w].status == TaskStatus::BlockedOnMutex(m as usize)
                    })
                &&& (forall|i1: int, i2: int|
                    0 <= i1 < i2 < mx.queue().len() ==> #[trigger] mx.queue()[i1]
                        != #[trigger] mx.queue()[i2])
            },
        }
    }

    /// Well-formedness of every mutex registry slot.
    pub open spec fn mutexes_ok(&self) -> bool {
        forall|m: int| 0 <= m < self.n_mutexes() ==> #[trigger] self.mutex_slot_ok(m)
    }

    /// Well-formedness of one semaphore registry slot, including the
    /// conservation ledger: the initial count splits exactly into the
    /// current count, the units held by tasks, and the parked waiters.
    pub open spec fn sem_slot_ok(&self, s: int) -> bool {
        match self.semaphore_list@[s] {
            None => forall|t: int|
                self.task_live(t) ==> (#[trigger] self.tasks@[t]).semaphore_alloc@[s] == 0,
            Some(sem) => {
                &&& sem.sid() == s
                &&& sem.conserved()
                &&& sem.queue_matches_count()
                &&& 0 <= sem.initial() <= isize::MAX
                &&& sem.initial() == sem.count() + sem_alloc_total(self.tasks@, s)
                    + sem.queue().len()
                &&& (forall|i: int|
                    0 <= i < sem.queue().len() ==> {
                        let w = (#[trigger] sem.queue()[i]) as int;
                        &&& self.task_live(w)
                        &&& self.tasks@[w].status == TaskStatus::BlockedOnSemaphore(s as usize)
                    })
                &&& (forall|i1: int, i2: int|
                    0 <= i1 < i2 < sem.queue().len() ==> #[trigger] sem.queue()[i1]
                        != #[trigger] sem.queue()[i2])
            },
        }
    }

    /// Well-formedness of every semaphore registry slot.
    pub open spec fn semaphores_ok(&self) -> bool {
        forall|s: int| 0 <= s < self.n_semaphores() ==> #[trigger] self.sem_slot_ok(s)
    }

    /// Well-formedness of one condition-variable registry slot.
    pub open spec fn condvar_slot_ok(&self, c: int) -> bool {
        match self.condvar_list@[c] {
            None => true,
            Some(cv) => {
                &&& (forall|i: int|
                    0 <= i < cv.queue().len() ==> {
                        let w = (#[trigger] cv.queue()[i]) as int;
                        &&& self.task_live(w)
                        &&& self.tasks@[w].status == TaskStatus::BlockedOnCondvar(c as usize)
                    })
                &&& (forall|i1: int, i2: int|
                    0 <= i1 < i2 < cv.queue().len() ==> #[trigger] cv.queue()[i1]
                        != #[trigger] cv.queue()[i2])
            },
        }
    }

    /// Well-formedness of every condition-variable registry slot.
    pub open spec fn condvars_ok(&self) -> bool {
        forall|c: int| 0 <= c < self.n_condvars() ==> #[trigger] self.condvar_slot_ok(c)
    }

    /// The global invariant of the synchronization core: every operation of
    /// this crate both relies on it and re-establishes it.
    pub open spec fn wf(&self) -> bool {
        &&& self.lens_ok()
        &&& self.dead_tasks_clear()
        &&& self.statuses_ok()
        &&& self.mutex_needs_ok()
        &&& self.sem_needs_ok()
        &&& self.mutex_alloc_bounded()
        &&& self.mutex_exclusion()
        &&& self.mutexes_ok()
        &&& self.semaphores_ok()
        &&& self.condvars_ok()
    }

    /// A fresh process: no tasks, empty registries, detection disabled.
    pub fn new() -> (p: Self)
        ensures
            p.wf(),
            p.n_tasks() == 0,
            p.n_mutexes() == 0,
            p.n_semaphores() == 0,
            p.n_condvars() == 0,
            !p.deadlock_detect,
    {
        ProcessState {
            tasks: Vec::new(),
            mutex_list: Vec::new(),
            semaphore_list: Vec::new(),
            condvar_list: Vec::new(),
            deadlock_detect: false,
        }
    }

    /// Spawns a task: appends a live, runnable task slot whose accounting
    /// vectors carry one zero entry per currently-live resource id, and
    /// returns its task id.
    pub fn spawn_task(&mut self) -> (tid: usize)
        requires
            old(self).wf(),
            old(self).n_tasks() < usize::MAX,
        ensures
            final(self).wf(),
            tid as int == old(self).n_tasks(),
            final(self).tasks@ == old(self).tasks@.push(final(self).tasks@[tid as int]),
            final(self).task_live(tid as int),
            final(self).tasks@[tid as int].status == TaskStatus::Runnable,
            all_zero(final(self).tasks@[tid as int].mutex_need@),
            all_zero(final(self).tasks@[tid as int].mutex_alloc@),
            all_zero(final(self).tasks@[tid as int].semaphore_need@),
            all_zero(final(self).tasks@[tid as int].semaphore_alloc@),
            final(self).mutex_list@ == old(self).mutex_list@,
            final(self).semaphore_list@ == old(self).semaphore_list@,
            final(self).condvar_list@ == old(self).condvar_list@,
            final(self).deadlock_detect == old(self).deadlock_detect,
    {
        let tid = self.tasks.len();
        let n_m = self.mutex_list.len();
        let n_s = self.semaphore_list.len();
        let tcb = TaskControlBlock::new(n_m, n_s);
        self.tasks.push(tcb);
        proof {
            let pre = old(self);
            assert forall|s: int| 0 <= s < self.n_semaphores() implies #[trigger] self.sem_slot_ok(
                s,
            ) by {
                assert(pre.sem_slot_ok(s));
                lemma_sem_total_push(pre.tasks@, self.tasks@[tid as int], s);
                assert(self.tasks@[tid as int].semaphore_alloc@[s] == 0);
            }
            assert forall|m: int| 0 <= m < self.n_mutexes() implies #[trigger] self.mutex_slot_ok(
                m,
            ) by {
                assert(pre.mutex_slot_ok(m));
            }
            assert forall|c: int| 0 <= c < self.n_condvars() implies #[trigger] self.condvar_slot_ok(
                c,
            ) by {
                assert(pre.condvar_slot_ok(c));
            }
            assert forall|t1: int, t2: int, m: int|
                self.task_live(t1) && self.task_live(t2) && t1 != t2 && 0 <= m
                    < self.n_mutexes() implies !(self.holds_mutex(t1, m) && self.holds_mutex(
                t2,
                m,
            )) by {
                if t1 < pre.n_tasks() && t2 < pre.n_tasks() {
                    assert(!(pre.holds_mutex(t1, m) && pre.holds_mutex(t2, m)));
                } else {
                    assert(self.tasks@[tid as int].mutex_alloc@[m] == 0);
                }
            }
        }
        tid
    }

    /// Terminates a task. Only a runnable task that holds no resource and
    /// has no outstanding request can exit through this core; its slot is
    /// marked dead and its (all-zero) accounting is discarded.
    pub fn exit_task(&mut self, tid: usize)
        requires
            old(self).wf(),
            old(self).task_live(tid as int),
            old(self).tasks@[tid as int].status == TaskStatus::Runnable,
            all_zero(old(self).tasks@[tid as int].mutex_alloc@),
            all_zero(old(self).tasks@[tid as int].semaphore_alloc@),
        ensures
            final(self).wf(),
            !final(self).tasks@[tid as int].alive,
            final(self).tasks@ == old(self).tasks@.update(
                tid as int,
                final(self).tasks@[tid as int],
            ),
            final(self).n_tasks() == old(self).n_tasks(),
            final(self).mutex_list@ == old(self).mutex_list@,
            final(self).semaphore_list@ == old(self).semaphore_list@,
            final(self).condvar_list@ == old(self).condvar_list@,
            final(self).deadlock_detect == old(self).deadlock_detect,
    {
        self.tasks[tid].alive = false;
        proof {
            let pre = old(self);
            assert(self.tasks@ == pre.tasks@.update(tid as int, self.tasks@[tid as int]));
            assert forall|s: int| 0 <= s < self.n_semaphores() implies #[trigger] self.sem_slot_ok(
                s,
            ) by {
                assert(pre.sem_slot_ok(s));
                lemma_sem_total_congruent(self.tasks@, pre.tasks@, s, self.tasks@.len() as int);
            }
            assert forall|m: int| 0 <= m < self.n_mutexes() implies #[trigger] self.mutex_slot_ok(
                m,
            ) by {
                assert(pre.mutex_slot_ok(m));
            }
            assert forall|c: int| 0 <= c < self.n_condvars() implies #[trigger] self.condvar_slot_ok(
                c,
            ) by {
                assert(pre.condvar_slot_ok(c));
            }
            assert forall|t1: int, t2: int, m: int|
                self.task_live(t1) && self.task_live(t2) && t1 != t2 && 0 <= m
                    < self.n_mutexes() implies !(self.holds_mutex(t1, m) && self.holds_mutex(
                t2,
                m,
            )) by {
                assert(!(pre.holds_mutex(t1, m) && pre.holds_mutex(t2, m)));
            }
        }
    }
}

/// Capacity, stated on its own: under the invariant, the units of a
/// semaphore that tasks hold never exceed the count it was created with.
/// (For a mutex the same bound is one unit, given by `mutex_exclusion`
/// with `mutex_alloc_bounded`.)
pub proof fn lemma_semaphore_capacity(p: &ProcessState, s: int)
    requires
        p.wf(),
        0 <= s < p.n_semaphores(),
        p.semaphore_list@[s] is Some,
    ensures
        sem_alloc_total(p.tasks@, s) <= p.semaphore_list@[s].unwrap().initial(),
{
    assert(p.sem_slot_ok(s));
}

/// Mutual exclusion, stated on its own: under the invariant, no two live
/// tasks observe themselves owning the same mutex at the same instant.
pub proof fn lemma_mutual_exclusion(p: &ProcessState, t1: int, t2: int, m: int)
    requires
        p.wf(),
        p.task_live(t1),
        p.task_live(t2),
        t1 != t2,
        0 <= m < p.n_mutexes(),
    ensures
        !(p.holds_mutex(t1, m) && p.holds_mutex(t2, m)),
{
}

/// Accounting conservation for mutexes, stated on its own: under the
/// invariant, a live task's `need + alloc` for a mutex never exceeds one
/// (binary ownership), and both entries are non-negative counts by type.
pub proof fn lemma_accounting_conservation(p: &ProcessState, t: int, m: int)
    requires
        p.wf(),
        p.task_live(t),
        0 <= m < p.n_mutexes(),
    ensures
        p.tasks@[t].mutex_need@[m] + p.tasks@[t].mutex_alloc@[m] <= 1,
{
    assert(p.tasks@[t].mutex_need@[m] == mutex_need_expected(p.tasks@[t].status, m));
    assert(p.tasks@[t].mutex_alloc@[m] <= 1);
    match p.tasks@[t].status {
        TaskStatus::SpinningOn(mm) => {
            if mm as int == m {
                assert(p.tasks@[t].mutex_alloc@[m] == 0);
            }
        },
        TaskStatus::BlockedOnMutex(mm) => {
            if mm as int == m {
                assert(p.tasks@[t].mutex_alloc@[m] == 0);
            }
        },
        _ => {},
    }
}

} // verus!
