//! The syscall layer of the synchronization core: creation, acquisition and
//! release of mutexes, semaphores and condition variables, the sleep call,
//! and the opt-in deadlock detector consulted before a blocking
//! acquisition.
//!
//! Each call takes the process's shared state and the calling task's id —
//! the identity accessors of the real kernel — and returns the bit-exact
//! result codes of the syscall interface: `0` on success, `-0xDEAD` when
//! the detector predicts a deadlock (the resource is then not acquired and
//! the task not blocked), and `-1` for an invalid detector flag.

use vstd::prelude::*;

use crate::banker::banker_check;
use crate::banker::int_view;
use crate::banker::pending_sum;
use crate::banker::pending_sum_upto;
use crate::banker::safe;
use crate::mutex::LockAttempt;
use crate::mutex::MutexInstance;
use crate::process::sem_alloc_total;
use crate::process::sem_alloc_total_upto;
use crate::process::ProcessState;
use crate::task::TaskStatus;

verus! {

/// Error code returned when the deadlock detector predicts that granting
/// the request could deadlock the process.
pub const DEADLOCK_ERR: isize = -0xDEAD;

/// The detector's snapshot of free units per mutex id: a held mutex offers
/// 0 units, a free one 1, an empty registry slot none.
pub open spec fn mutex_available(p: &ProcessState) -> Seq<usize> {
    Seq::new(
        p.mutex_list@.len(),
        |m: int|
            match p.mutex_list@[m] {
                Some(mx) => if mx.locked() {
                    0usize
                } else {
                    1usize
                },
                None => 0usize,
            },
    )
}

/// The detector's effective need matrix for mutexes: the stored need rows,
/// with the requesting task's entry for the target id hypothetically
/// incremented by one.
pub open spec fn mutex_need_rows(p: &ProcessState, cur: int, target: int) -> Seq<Seq<usize>> {
    Seq::new(
        p.tasks@.len(),
        |t: int|
            Seq::new(
                p.mutex_list@.len(),
                |m: int|
                    if t == cur && m == target {
                        (p.tasks@[t].mutex_need@[m] + 1) as usize
                    } else {
                        p.tasks@[t].mutex_need@[m]
                    },
            ),
    )
}

/// The detector's alloc matrix for mutexes: each task's alloc row.
pub open spec fn mutex_alloc_rows(p: &ProcessState) -> Seq<Seq<usize>> {
    Seq::new(p.tasks@.len(), |t: int| p.tasks@[t].mutex_alloc@)
}

/// The detector's initial finish marks: terminated (dead) task slots are
/// already finished.
pub open spec fn finished_flags(p: &ProcessState) -> Seq<bool> {
    Seq::new(p.tasks@.len(), |t: int| !p.tasks@[t].alive)
}

/// The detector's snapshot of free units per semaphore id: the count
/// clamped at zero, an empty slot offering none.
pub open spec fn sem_available(p: &ProcessState) -> Seq<usize> {
    Seq::new(
        p.semaphore_list@.len(),
        |s: int|
            match p.semaphore_list@[s] {
                Some(sem) => if sem.count() < 0 {
                    0usize
                } else {
                    sem.count() as usize
                },
                None => 0usize,
            },
    )
}

/// The detector's effective need matrix for semaphores.
pub open spec fn sem_need_rows(p: &ProcessState, cur: int, target: int) -> Seq<Seq<usize>> {
    Seq::new(
        p.tasks@.len(),
        |t: int|
            Seq::new(
                p.semaphore_list@.len(),
                |s: int|
                    if t == cur && s == target {
                        (p.tasks@[t].semaphore_need@[s] + 1) as usize
                    } else {
                        p.tasks@[t].semaphore_need@[s]
                    },
            ),
    )
}

/// The detector's alloc matrix for semaphores.
pub open spec fn sem_alloc_rows(p: &ProcessState) -> Seq<Seq<usize>> {
    Seq::new(p.tasks@.len(), |t: int| p.tasks@[t].semaphore_alloc@)
}

/// The mutex snapshot of `p` predicts a deadlock if task `cur` is granted
/// one more unit of mutex `target`.
pub open spec fn mutex_snapshot_deadlocks(p: &ProcessState, cur: int, target: int) -> bool {
    !safe(
        int_view(mutex_available(p)),
        mutex_need_rows(p, cur, target),
        mutex_alloc_rows(p),
        finished_flags(p),
    )
}

/// The semaphore snapshot of `p` predicts a deadlock if task `cur` is
/// granted one more unit of semaphore `target`.
pub open spec fn sem_snapshot_deadlocks(p: &ProcessState, cur: int, target: int) -> bool {
    !safe(
        int_view(sem_available(p)),
        sem_need_rows(p, cur, target),
        sem_alloc_rows(p),
        finished_flags(p),
    )
}

/// Enables (1) or disables (0) deadlock detection for the process; any
/// other flag value is rejected with `-1` and changes nothing.
pub fn sys_enable_deadlock_detect(p: &mut ProcessState, enabled: usize) -> (r: isize)
    requires
        old(p).wf(),
    ensures
        final(p).wf(),
        enabled == 0 ==> r == 0 && !final(p).deadlock_detect,
        enabled == 1 ==> r == 0 && final(p).deadlock_detect,
        enabled >= 2 ==> r == -1 && final(p).deadlock_detect == old(p).deadlock_detect,
        final(p).tasks@ == old(p).tasks@,
        final(p).mutex_list@ == old(p).mutex_list@,
        final(p).semaphore_list@ == old(p).semaphore_list@,
        final(p).condvar_list@ == old(p).condvar_list@,
{
    let r: isize;
    match enabled {
        0 => {
            p.deadlock_detect = false;
            r = 0;
        },
        1 => {
            p.deadlock_detect = true;
            r = 0;
        },
        _ => {
            r = -1;
        },
    }
    proof {
        lemma_wf_same_sync_state(old(p), p);
    }
    r
}

/// The invariant does not depend on the detection flag: two states with
/// the same tasks and registries are equally well-formed.
proof fn lemma_wf_same_sync_state(pre: &ProcessState, post: &ProcessState)
    requires
        pre.wf(),
        post.tasks@ == pre.tasks@,
        post.mutex_list@ == pre.mutex_list@,
        post.semaphore_list@ == pre.semaphore_list@,
        post.condvar_list@ == pre.condvar_list@,
    ensures
        post.wf(),
{
    assert forall|s: int| 0 <= s < post.n_semaphores() implies #[trigger] post.sem_slot_ok(s) by {
        assert(pre.sem_slot_ok(s));
        crate::process::lemma_sem_total_congruent(
            post.tasks@,
            pre.tasks@,
            s,
            post.tasks@.len() as int,
        );
    }
    assert forall|m: int| 0 <= m < post.n_mutexes() implies #[trigger] post.mutex_slot_ok(m) by {
        assert(pre.mutex_slot_ok(m));
    }
    assert forall|c: int| 0 <= c < post.n_condvars() implies #[trigger] post.condvar_slot_ok(c) by {
        assert(pre.condvar_slot_ok(c));
    }
    assert forall|t1: int, t2: int, m: int|
        post.task_live(t1) && post.task_live(t2) && t1 != t2 && 0 <= m
            < post.n_mutexes() implies !(post.holds_mutex(t1, m) && post.holds_mutex(t2, m)) by {
        assert(!(pre.holds_mutex(t1, m) && pre.holds_mutex(t2, m)));
    }
}

/// The sleep call's decision part: computes the wakeup deadline and parks
/// the caller until the external timer facility wakes it. The returned
/// pair is the syscall result (always 0) and the deadline in milliseconds
/// to hand to the timer.
pub fn sys_sleep(p: &mut ProcessState, tid: usize, now_ms: usize, ms: usize) -> (r: (isize, usize))
    requires
        old(p).wf(),
        old(p).task_live(tid as int),
        old(p).tasks@[tid as int].status == TaskStatus::Runnable,
        now_ms + ms <= usize::MAX,
    ensures
        final(p).wf(),
        r.0 == 0,
        r.1 == now_ms + ms,
        final(p).tasks@ == old(p).tasks@.update(tid as int, final(p).tasks@[tid as int]),
        final(p).tasks@[tid as int].status == TaskStatus::Sleeping,
        final(p).tasks@[tid as int].alive,
        final(p).tasks@[tid as int].mutex_need@ == old(p).tasks@[tid as int].mutex_need@,
        final(p).tasks@[tid as int].mutex_alloc@ == old(p).tasks@[tid as int].mutex_alloc@,
        final(p).tasks@[tid as int].semaphore_need@ == old(p).tasks@[tid as int].semaphore_need@,
        final(p).tasks@[tid as int].semaphore_alloc@ == old(p).tasks@[tid as int].semaphore_alloc@,
        final(p).mutex_list@ == old(p).mutex_list@,
        final(p).semaphore_list@ == old(p).semaphore_list@,
        final(p).condvar_list@ == old(p).condvar_list@,
        final(p).deadlock_detect == old(p).deadlock_detect,
{
    let expire_ms = now_ms + ms;
    p.tasks[tid].status = TaskStatus::Sleeping;
    proof {
        lemma_wf_after_status_only_change(old(p), p, tid as int);
    }
    (0, expire_ms)
}

/// The external timer facility's wakeup, as this core observes it: a
/// sleeping task becomes runnable again when its deadline has passed.
pub fn timer_wakeup(p: &mut ProcessState, tid: usize)
    requires
        old(p).wf(),
        old(p).task_live(tid as int),
        old(p).tasks@[tid as int].status == TaskStatus::Sleeping,
    ensures
        final(p).wf(),
        final(p).tasks@ == old(p).tasks@.update(tid as int, final(p).tasks@[tid as int]),
        final(p).tasks@[tid as int].status == TaskStatus::Runnable,
        final(p).tasks@[tid as int].alive,
        final(p).tasks@[tid as int].mutex_need@ == old(p).tasks@[tid as int].mutex_need@,
        final(p).tasks@[tid as int].mutex_alloc@ == old(p).tasks@[tid as int].mutex_alloc@,
        final(p).tasks@[tid as int].semaphore_need@ == old(p).tasks@[tid as int].semaphore_need@,
        final(p).tasks@[tid as int].semaphore_alloc@ == old(p).tasks@[tid as int].semaphore_alloc@,
        final(p).mutex_list@ == old(p).mutex_list@,
        final(p).semaphore_list@ == old(p).semaphore_list@,
        final(p).condvar_list@ == old(p).condvar_list@,
        final(p).deadlock_detect == old(p).deadlock_detect,
{
    p.tasks[tid].status = TaskStatus::Runnable;
    proof {
        lemma_wf_after_status_only_change(old(p), p, tid as int);
    }
}

/// Shared invariant-preservation argument for a transition that changes
/// only one live task's status between `Runnable` and `Sleeping`, touching
/// no accounting vector and no queue.
proof fn lemma_wf_after_status_only_change(pre: &ProcessState, post: &ProcessState, t: int)
    requires
        pre.wf(),
        pre.task_live(t),
        post.tasks@ == pre.tasks@.update(t, post.tasks@[t]),
        post.tasks@[t].alive,
        post.tasks@[t].status == TaskStatus::Runnable || post.tasks@[t].status
            == TaskStatus::Sleeping,
        pre.tasks@[t].status == TaskStatus::Runnable || pre.tasks@[t].status
            == TaskStatus::Sleeping,
        post.tasks@[t].mutex_need@ == pre.tasks@[t].mutex_need@,
        post.tasks@[t].mutex_alloc@ == pre.tasks@[t].mutex_alloc@,
        post.tasks@[t].semaphore_need@ == pre.tasks@[t].semaphore_need@,
        post.tasks@[t].semaphore_alloc@ == pre.tasks@[t].semaphore_alloc@,
        post.mutex_list@ == pre.mutex_list@,
        post.semaphore_list@ == pre.semaphore_list@,
        post.condvar_list@ == pre.condvar_list@,
    ensures
        post.wf(),
{
    assert forall|s: int| 0 <= s < post.n_semaphores() implies #[trigger] post.sem_slot_ok(s) by {
        assert(pre.sem_slot_ok(s));
        crate::process::lemma_sem_total_congruent(
            post.tasks@,
            pre.tasks@,
            s,
            post.tasks@.len() as int,
        );
        match post.semaphore_list@[s] {
            Some(sem) => {
                assert forall|i: int| 0 <= i < sem.queue().len() implies {
                    let w = (#[trigger] sem.queue()[i]) as int;
                    &&& post.task_live(w)
                    &&& post.tasks@[w].status == TaskStatus::BlockedOnSemaphore(s as usize)
                } by {
                    let w = sem.queue()[i] as int;
                    assert(pre.task_live(w));
                    assert(pre.tasks@[w].status == TaskStatus::BlockedOnSemaphore(s as usize));
                    assert(w != t);
                }
            },
            None => {},
        }
    }
    assert forall|m: int| 0 <= m < post.n_mutexes() implies #[trigger] post.mutex_slot_ok(m) by {
        assert(pre.mutex_slot_ok(m));
        match post.mutex_list@[m] {
            Some(mx) => {
                assert forall|i: int| 0 <= i < mx.queue().len() implies {
                    let w = (#[trigger] mx.queue()[i]) as int;
                    &&& post.task_live(w)
                    &&& post.tasks@[w].status == TaskStatus::BlockedOnMutex(m as usize)
                } by {
                    let w = mx.queue()[i] as int;
                    assert(pre.task_live(w));
                    assert(pre.tasks@[w].status == TaskStatus::BlockedOnMutex(m as usize));
                    assert(w != t);
                }
            },
            None => {},
        }
    }
    assert forall|c: int| 0 <= c < post.n_condvars() implies #[trigger] post.condvar_slot_ok(c) by {
        assert(pre.condvar_slot_ok(c));
        match post.condvar_list@[c] {
            Some(cv) => {
                assert forall|i: int| 0 <= i < cv.queue().len() implies {
                    let w = (#[trigger] cv.queue()[i]) as int;
                    &&& post.task_live(w)
                    &&& post.tasks@[w].status == TaskStatus::BlockedOnCondvar(c as usize)
                } by {
                    let w = cv.queue()[i] as int;
                    assert(pre.task_live(w));
                    assert(pre.tasks@[w].status == TaskStatus::BlockedOnCondvar(c as usize));
                    assert(w != t);
                }
            },
            None => {},
        }
    }
    assert forall|t1: int, t2: int, m: int|
        post.task_live(t1) && post.task_live(t2) && t1 != t2 && 0 <= m
            < post.n_mutexes() implies !(post.holds_mutex(t1, m) && post.holds_mutex(t2, m)) by {
        assert(!(pre.holds_mutex(t1, m) && pre.holds_mutex(t2, m)));
    }
}

/// In a well-formed state, the pending mutex-allocation column sum over
/// live tasks is at most one unit: ownership is binary and exclusive.
proof fn lemma_mutex_pending_le(p: &ProcessState, m: int, k: int)
    requires
        p.wf(),
        0 <= m < p.n_mutexes(),
        0 <= k <= p.n_tasks(),
    ensures
        0 <= pending_sum_upto(mutex_alloc_rows(p), finished_flags(p), m, k) <= 1,
        pending_sum_upto(mutex_alloc_rows(p), finished_flags(p), m, k) == 1 ==> exists|t: int|
            0 <= t < k && p.task_live(t) && #[trigger] p.holds_mutex(t, m),
    decreases k,
{
    if k > 0 {
        lemma_mutex_pending_le(p, m, k - 1);
        let rows = mutex_alloc_rows(p);
        let fl = finished_flags(p);
        if !fl[k - 1] {
            assert(p.task_live(k - 1));
            assert(rows[k - 1][m] == p.tasks@[k - 1].mutex_alloc@[m]);
            assert(p.tasks@[k - 1].mutex_alloc@[m] <= 1);
            if rows[k - 1][m] as int >= 1 {
                assert(p.holds_mutex(k - 1, m));
                if pending_sum_upto(rows, fl, m, k - 1) == 1 {
                    let t0 = choose|t: int|
                        0 <= t < k - 1 && p.task_live(t) && #[trigger] p.holds_mutex(t, m);
                    assert(!(p.holds_mutex(t0, m) && p.holds_mutex(k - 1, m)));
                    assert(false);
                }
            }
        } else {
            assert(!p.tasks@[k - 1].alive);
            assert(p.tasks@[k - 1].mutex_alloc@[m] == 0);
        }
    }
}

/// The pending semaphore-allocation column sum equals the ledger total:
/// terminated tasks contribute zero on both sides.
proof fn lemma_sem_pending_eq_total(p: &ProcessState, s: int, k: int)
    requires
        p.wf(),
        0 <= s < p.n_semaphores(),
        0 <= k <= p.n_tasks(),
    ensures
        pending_sum_upto(sem_alloc_rows(p), finished_flags(p), s, k) == sem_alloc_total_upto(
            p.tasks@,
            s,
            k,
        ),
    decreases k,
{
    if k > 0 {
        lemma_sem_pending_eq_total(p, s, k - 1);
        let rows = sem_alloc_rows(p);
        let fl = finished_flags(p);
        if fl[k - 1] {
            assert(!p.tasks@[k - 1].alive);
            assert(p.tasks@[k - 1].semaphore_alloc@[s] == 0);
        }
    }
}

/// With an empty semaphore registry slot no task holds any unit of it.
proof fn lemma_sem_total_zero_when_none(p: &ProcessState, s: int, k: int)
    requires
        p.wf(),
        0 <= s < p.n_semaphores(),
        0 <= k <= p.n_tasks(),
        p.semaphore_list@[s] is None,
    ensures
        sem_alloc_total_upto(p.tasks@, s, k) == 0,
    decreases k,
{
    if k > 0 {
        lemma_sem_total_zero_when_none(p, s, k - 1);
        assert(p.sem_slot_ok(s));
        if p.tasks@[k - 1].alive {
            assert(p.task_live(k - 1));
            assert(p.tasks@[k - 1].semaphore_alloc@[s] == 0);
        } else {
            assert(p.tasks@[k - 1].semaphore_alloc@[s] == 0);
        }
    }
}

/// The Banker's safety check over the mutex registry: true when granting
/// task `cur_tid` one more unit of mutex `mutex_id` could leave the
/// process unable to finish all its tasks.
pub fn deadlock_detect_mutex(p: &ProcessState, cur_tid: usize, mutex_id: usize) -> (r: bool)
    requires
        p.wf(),
        p.task_live(cur_tid as int),
        (mutex_id as int) < p.n_mutexes(),
    ensures
        r == mutex_snapshot_deadlocks(p, cur_tid as int, mutex_id as int),
{
    let task_cnt = p.tasks.len();
    let mutex_cnt = p.mutex_list.len();
    let ghost avail_spec = mutex_available(p);
    let ghost need_spec = mutex_need_rows(p, cur_tid as int, mutex_id as int);
    let ghost alloc_spec = mutex_alloc_rows(p);
    let ghost finish_spec = finished_flags(p);

    let mut available: Vec<usize> = Vec::new();
    let mut m: usize = 0;
    while m < mutex_cnt
        invariant
            m <= mutex_cnt,
            mutex_cnt == p.mutex_list@.len(),
            avail_spec == mutex_available(p),
            available@ == avail_spec.take(m as int),
        decreases mutex_cnt - m,
    {
        let slot = &p.mutex_list[m];
        let avail_m: usize = match slot {
            Some(mx) => mx.test(),
            None => 0,
        };
        available.push(avail_m);
        proof {
            assert(available@ =~= avail_spec.take(m as int + 1));
        }
        m += 1;
    }
    proof {
        assert(available@ =~= avail_spec);
    }

    let mut need: Vec<Vec<usize>> = Vec::new();
    let mut t: usize = 0;
    while t < task_cnt
        invariant
            t <= task_cnt,
            task_cnt == p.tasks@.len(),
            mutex_cnt == p.mutex_list@.len(),
            p.wf(),
            p.task_live(cur_tid as int),
            (mutex_id as int) < p.n_mutexes(),
            need_spec == mutex_need_rows(p, cur_tid as int, mutex_id as int),
            need@.len() == t,
            forall|tt: int| 0 <= tt < t ==> (#[trigger] need@[tt])@ == need_spec[tt],
        decreases task_cnt - t,
    {
        let mut row: Vec<usize> = Vec::new();
        let mut mm: usize = 0;
        while mm < mutex_cnt
            invariant
                mm <= mutex_cnt,
                t < task_cnt,
                task_cnt == p.tasks@.len(),
                mutex_cnt == p.mutex_list@.len(),
                p.wf(),
                p.task_live(cur_tid as int),
                (mutex_id as int) < p.n_mutexes(),
                need_spec == mutex_need_rows(p, cur_tid as int, mutex_id as int),
                row@.len() == mm,
                forall|j: int| 0 <= j < mm ==> #[trigger] row@[j] == need_spec[t as int][j],
            decreases mutex_cnt - mm,
        {
            let base = p.tasks[t].mutex_need[mm];
            let entry: usize = if t == cur_tid && mm == mutex_id {
                proof {
                    if p.tasks@[t as int].alive {
                        assert(p.tasks@[t as int].mutex_need@[mm as int] == crate::process::mutex_need_expected(
                            p.tasks@[t as int].status,
                            mm as int,
                        ));
                    } else {
                        assert(p.tasks@[t as int].mutex_need@[mm as int] == 0);
                    }
                }
                base + 1
            } else {
                base
            };
            row.push(entry);
            mm += 1;
        }
        proof {
            assert(row@ =~= need_spec[t as int]);
        }
        need.push(row);
        t += 1;
    }

    let mut alloc: Vec<Vec<usize>> = Vec::new();
    let mut t2: usize = 0;
    while t2 < task_cnt
        invariant
            t2 <= task_cnt,
            task_cnt == p.tasks@.len(),
            alloc_spec == mutex_alloc_rows(p),
            alloc@.len() == t2,
            forall|tt: int| 0 <= tt < t2 ==> (#[trigger] alloc@[tt])@ == alloc_spec[tt],
        decreases task_cnt - t2,
    {
        let row = crate::banker::copy_counts(&p.tasks[t2].mutex_alloc);
        alloc.push(row);
        t2 += 1;
    }

    let mut finish: Vec<bool> = Vec::new();
    let mut t3: usize = 0;
    while t3 < task_cnt
        invariant
            t3 <= task_cnt,
            task_cnt == p.tasks@.len(),
            finish_spec == finished_flags(p),
            finish@ == finish_spec.take(t3 as int),
        decreases task_cnt - t3,
    {
        finish.push(!p.tasks[t3].alive);
        proof {
            assert(finish@ =~= finish_spec.take(t3 as int + 1));
        }
        t3 += 1;
    }
    proof {
        assert(finish@ =~= finish_spec);
        assert forall|tt: int| 0 <= tt < need@.len() implies #[trigger] need.deep_view()[tt]
            == need_spec[tt] by {
            assert(need.deep_view()[tt] =~= need@[tt]@);
        }
        assert(need.deep_view() =~= need_spec);
        assert forall|tt: int| 0 <= tt < alloc@.len() implies #[trigger] alloc.deep_view()[tt]
            == alloc_spec[tt] by {
            assert(alloc.deep_view()[tt] =~= alloc@[tt]@);
        }
        assert(alloc.deep_view() =~= alloc_spec);
        assert forall|j: int|
            0 <= j < available@.len() implies (#[trigger] available@[j]) + pending_sum(
            alloc.deep_view(),
            finish@,
            j,
        ) <= usize::MAX by {
            lemma_mutex_pending_le(p, j, task_cnt as int);
            assert(avail_spec[j] <= 1);
        }
        assert forall|tt: int| 0 <= tt < need_spec.len() implies (#[trigger] need_spec[tt]).len()
            == available@.len() by {}
        assert forall|tt: int| 0 <= tt < alloc_spec.len() implies (#[trigger] alloc_spec[tt]).len()
            == available@.len() by {
            assert(alloc_spec[tt] == p.tasks@[tt].mutex_alloc@);
        }
    }
    banker_check(&available, &need, &alloc, &finish)
}

/// The Banker's safety check over the semaphore registry.
pub fn deadlock_detect_semaphore(p: &ProcessState, cur_tid: usize, sem_id: usize) -> (r: bool)
    requires
        p.wf(),
        p.task_live(cur_tid as int),
        (sem_id as int) < p.n_semaphores(),
    ensures
        r == sem_snapshot_deadlocks(p, cur_tid as int, sem_id as int),
{
    let task_cnt = p.tasks.len();
    let sem_cnt = p.semaphore_list.len();
    let ghost avail_spec = sem_available(p);
    let ghost need_spec = sem_need_rows(p, cur_tid as int, sem_id as int);
    let ghost alloc_spec = sem_alloc_rows(p);
    let ghost finish_spec = finished_flags(p);

    let mut available: Vec<usize> = Vec::new();
    let mut m: usize = 0;
    while m < sem_cnt
        invariant
            m <= sem_cnt,
            sem_cnt == p.semaphore_list@.len(),
            avail_spec == sem_available(p),
            available@ == avail_spec.take(m as int),
        decreases sem_cnt - m,
    {
        let slot = &p.semaphore_list[m];
        let avail_m: usize = match slot {
            Some(sem) => {
                let tmp = sem.test();
                if tmp < 0 {
                    0
                } else {
                    tmp as usize
                }
            },
            None => 0,
        };
        available.push(avail_m);
        proof {
            assert(available@ =~= avail_spec.take(m as int + 1));
        }
        m += 1;
    }
    proof {
        assert(available@ =~= avail_spec);
    }

    let mut need: Vec<Vec<usize>> = Vec::new();
    let mut t: usize = 0;
    while t < task_cnt
        invariant
            t <= task_cnt,
            task_cnt == p.tasks@.len(),
            sem_cnt == p.semaphore_list@.len(),
            p.wf(),
            p.task_live(cur_tid as int),
            (sem_id as int) < p.n_semaphores(),
            need_spec == sem_need_rows(p, cur_tid as int, sem_id as int),
            need@.len() == t,
            forall|tt: int| 0 <= tt < t ==> (#[trigger] need@[tt])@ == need_spec[tt],
        decreases task_cnt - t,
    {
        let mut row: Vec<usize> = Vec::new();
        let mut ss: usize = 0;
        while ss < sem_cnt
            invariant
                ss <= sem_cnt,
                t < task_cnt,
                task_cnt == p.tasks@.len(),
                sem_cnt == p.semaphore_list@.len(),
                p.wf(),
                p.task_live(cur_tid as int),
                (sem_id as int) < p.n_semaphores(),
                need_spec == sem_need_rows(p, cur_tid as int, sem_id as int),
                row@.len() == ss,
                forall|j: int| 0 <= j < ss ==> #[trigger] row@[j] == need_spec[t as int][j],
            decreases sem_cnt - ss,
        {
            let base = p.tasks[t].semaphore_need[ss];
            let entry: usize = if t == cur_tid && ss == sem_id {
                proof {
                    if p.tasks@[t as int].alive {
                        assert(p.tasks@[t as int].semaphore_need@[ss as int] == crate::process::sem_need_expected(
                            p.tasks@[t as int].status,
                            ss as int,
                        ));
                    } else {
                        assert(p.tasks@[t as int].semaphore_need@[ss as int] == 0);
                    }
                }
                base + 1
            } else {
                base
            };
            row.push(entry);
            ss += 1;
        }
        proof {
            assert(row@ =~= need_spec[t as int]);
        }
        need.push(row);
        t += 1;
    }

    let mut alloc: Vec<Vec<usize>> = Vec::new();
    let mut t2: usize = 0;
    while t2 < task_cnt
        invariant
            t2 <= task_cnt,
            task_cnt == p.tasks@.len(),
            alloc_spec == sem_alloc_rows(p),
            alloc@.len() == t2,
            forall|tt: int| 0 <= tt < t2 ==> (#[trigger] alloc@[tt])@ == alloc_spec[tt],
        decreases task_cnt - t2,
    {
        let row = crate::banker::copy_counts(&p.tasks[t2].semaphore_alloc);
        alloc.push(row);
        t2 += 1;
    }

    let mut finish: Vec<bool> = Vec::new();
    let mut t3: usize = 0;
    while t3 < task_cnt
        invariant
            t3 <= task_cnt,
            task_cnt == p.tasks@.len(),
            finish_spec == finished_flags(p),
            finish@ == finish_spec.take(t3 as int),
        decreases task_cnt - t3,
    {
        finish.push(!p.tasks[t3].alive);
        proof {
            assert(finish@ =~= finish_spec.take(t3 as int + 1));
        }
        t3 += 1;
    }
    proof {
        assert(finish@ =~= finish_spec);
        assert forall|tt: int| 0 <= tt < need@.len() implies #[trigger] need.deep_view()[tt]
            == need_spec[tt] by {
            assert(need.deep_view()[tt] =~= need@[tt]@);
        }
        assert(need.deep_view() =~= need_spec);
        assert forall|tt: int| 0 <= tt < alloc@.len() implies #[trigger] alloc.deep_view()[tt]
            == alloc_spec[tt] by {
            assert(alloc.deep_view()[tt] =~= alloc@[tt]@);
        }
        assert(alloc.deep_view() =~= alloc_spec);
        assert forall|j: int|
            0 <= j < available@.len() implies (#[trigger] available@[j]) + pending_sum(
            alloc.deep_view(),
            finish@,
            j,
        ) <= usize::MAX by {
            lemma_sem_pending_eq_total(p, j, task_cnt as int);
            crate::process::lemma_sem_total_nonneg(p.tasks@, j, task_cnt as int);
            match p.semaphore_list@[j] {
                Some(sem) => {
                    assert(p.sem_slot_ok(j));
                    assert(sem.initial() == sem.count() + sem_alloc_total(p.tasks@, j)
                        + sem.queue().len());
                },
                None => {
                    lemma_sem_total_zero_when_none(p, j, task_cnt as int);
                },
            }
        }
        assert forall|tt: int| 0 <= tt < need_spec.len() implies (#[trigger] need_spec[tt]).len()
            == available@.len() by {}
        assert forall|tt: int| 0 <= tt < alloc_spec.len() implies (#[trigger] alloc_spec[tt]).len()
            == available@.len() by {
            assert(alloc_spec[tt] == p.tasks@[tt].semaphore_alloc@);
        }
    }
    banker_check(&available, &need, &alloc, &finish)
}

/// Index of the first free (recycled) registry slot, or the table length
/// when every slot is in use and the table must grow.
fn find_free_slot<T>(list: &Vec<Option<T>>) -> (r: usize)
    ensures
        r <= list@.len(),
        forall|k: int| 0 <= k < r ==> (#[trigger] list@[k]) is Some,
        (r as int) < list@.len() ==> list@[r as int] is None,
{
    let n = list.len();
    let mut i: usize = 0;
    while i < n
        invariant
            i <= n,
            n == list@.len(),
            forall|k: int| 0 <= k < i ==> (#[trigger] list@[k]) is Some,
        decreases n - i,
    {
        if list[i].is_none() {
            return i;
        }
        i += 1;
    }
    n
}

/// Creates a condition variable, reusing the first freed slot if one
/// exists and appending otherwise, and returns its id.
pub fn sys_condvar_create(p: &mut ProcessState) -> (id: isize)
    requires
        old(p).wf(),
        old(p).n_condvars() < isize::MAX,
    ensures
        final(p).wf(),
        0 <= id <= old(p).n_condvars(),
        forall|k: int| 0 <= k < id ==> (#[trigger] old(p).condvar_list@[k]) is Some,
        final(p).tasks@ == old(p).tasks@,
        final(p).mutex_list@ == old(p).mutex_list@,
        final(p).semaphore_list@ == old(p).semaphore_list@,
        final(p).deadlock_detect == old(p).deadlock_detect,
        match final(p).condvar_list@[id as int] {
            Some(cv) => cv.queue().len() == 0,
            None => false,
        },
        id < old(p).n_condvars() ==> old(p).condvar_list@[id as int] is None
            && final(p).condvar_list@ == old(p).condvar_list@.update(
            id as int,
            final(p).condvar_list@[id as int],
        ),
        id == old(p).n_condvars() ==> final(p).condvar_list@ == old(p).condvar_list@.push(
            final(p).condvar_list@[id as int],
        ),
{
    let n = p.condvar_list.len();
    let id = find_free_slot(&p.condvar_list);
    let cv = crate::condvar::Condvar::new();
    if id < n {
        p.condvar_list[id] = Some(cv);
    } else {
        p.condvar_list.push(Some(cv));
    }
    proof {
        assert forall|s: int| 0 <= s < p.n_semaphores() implies #[trigger] p.sem_slot_ok(s) by {
            assert(old(p).sem_slot_ok(s));
        }
        assert forall|m: int| 0 <= m < p.n_mutexes() implies #[trigger] p.mutex_slot_ok(m) by {
            assert(old(p).mutex_slot_ok(m));
        }
        assert forall|c: int| 0 <= c < p.n_condvars() implies #[trigger] p.condvar_slot_ok(c) by {
            if c != id {
                assert(old(p).condvar_slot_ok(c));
            }
        }
        assert forall|t1: int, t2: int, m: int|
            p.task_live(t1) && p.task_live(t2) && t1 != t2 && 0 <= m
                < p.n_mutexes() implies !(p.holds_mutex(t1, m) && p.holds_mutex(t2, m)) by {
            assert(!(old(p).holds_mutex(t1, m) && old(p).holds_mutex(t2, m)));
        }
    }
    id as isize
}

/// Creates a semaphore with `res_count` initial units, reusing the first
/// freed slot if one exists and appending otherwise; every task's
/// semaphore accounting vectors are kept in lock-step with the registry.
pub fn sys_semaphore_create(p: &mut ProcessState, res_count: usize) -> (id: isize)
    requires
        old(p).wf(),
        res_count <= isize::MAX,
        old(p).n_semaphores() < isize::MAX,
    ensures
        final(p).wf(),
        0 <= id <= old(p).n_semaphores(),
        forall|k: int| 0 <= k < id ==> (#[trigger] old(p).semaphore_list@[k]) is Some,
        match final(p).semaphore_list@[id as int] {
            Some(sem) => {
                &&& sem.sid() == id
                &&& sem.count() == res_count
                &&& sem.initial() == res_count
                &&& sem.queue().len() == 0
            },
            None => false,
        },
        id < old(p).n_semaphores() ==> old(p).semaphore_list@[id as int] is None
            && final(p).semaphore_list@ == old(p).semaphore_list@.update(
            id as int,
            final(p).semaphore_list@[id as int],
        ),
        id == old(p).n_semaphores() ==> final(p).semaphore_list@ == old(p).semaphore_list@.push(
            final(p).semaphore_list@[id as int],
        ),
        final(p).n_tasks() == old(p).n_tasks(),
        forall|t: int|
            0 <= t < old(p).n_tasks() ==> {
                let pre_t = old(p).tasks@[t];
                let post_t = #[trigger] final(p).tasks@[t];
                &&& post_t.alive == pre_t.alive
                &&& post_t.status == pre_t.status
                &&& post_t.mutex_need@ == pre_t.mutex_need@
                &&& post_t.mutex_alloc@ == pre_t.mutex_alloc@
                &&& post_t.semaphore_need@ == if id < old(p).n_semaphores() {
                    pre_t.semaphore_need@.update(id as int, 0usize)
                } else {
                    pre_t.semaphore_need@.push(0usize)
                }
                &&& post_t.semaphore_alloc@ == if id < old(p).n_semaphores() {
                    pre_t.semaphore_alloc@.update(id as int, 0usize)
                } else {
                    pre_t.semaphore_alloc@.push(0usize)
                }
            },
        final(p).mutex_list@ == old(p).mutex_list@,
        final(p).condvar_list@ == old(p).condvar_list@,
        final(p).deadlock_detect == old(p).deadlock_detect,
{
    let n = p.semaphore_list.len();
    let id = find_free_slot(&p.semaphore_list);
    let sem = crate::semaphore::Semaphore::new(res_count, id);
    let ghost gsem = sem;
    let tc = p.tasks.len();
    if id < n {
        p.semaphore_list[id] = Some(sem);
        let mut t: usize = 0;
        while t < tc
            invariant
                t <= tc,
                tc == p.tasks@.len(),
                p.tasks@.len() == old(p).tasks@.len(),
                old(p).wf(),
                (id as int) < old(p).n_semaphores(),
                p.semaphore_list@ == old(p).semaphore_list@.update(
                    id as int,
                    p.semaphore_list@[id as int],
                ),
                p.semaphore_list@[id as int] == Some(gsem),
                p.mutex_list@ == old(p).mutex_list@,
                p.condvar_list@ == old(p).condvar_list@,
                p.deadlock_detect == old(p).deadlock_detect,
                forall|tt: int| t <= tt < tc ==> #[trigger] p.tasks@[tt] == old(p).tasks@[tt],
                forall|tt: int|
                    0 <= tt < t ==> {
                        let pre_t = old(p).tasks@[tt];
                        let post_t = #[trigger] p.tasks@[tt];
                        &&& post_t.alive == pre_t.alive
                        &&& post_t.status == pre_t.status
                        &&& post_t.mutex_need@ == pre_t.mutex_need@
                        &&& post_t.mutex_alloc@ == pre_t.mutex_alloc@
                        &&& post_t.semaphore_need@ == pre_t.semaphore_need@.update(id as int, 0usize)
                        &&& post_t.semaphore_alloc@ == pre_t.semaphore_alloc@.update(id as int, 0usize)
                    },
            decreases tc - t,
        {
            proof {
                assert(old(p).tasks@[t as int].semaphore_need@.len() == old(p).n_semaphores());
            }
            p.tasks[t].reset_semaphore(id);
            t += 1;
        }
        proof {
            lemma_semaphore_create_wf(old(p), p, id as int, res_count as int);
        }
    } else {
        p.semaphore_list.push(Some(sem));
        let mut t: usize = 0;
        while t < tc
            invariant
                t <= tc,
                tc == p.tasks@.len(),
                p.tasks@.len() == old(p).tasks@.len(),
                old(p).wf(),
                id as int == old(p).n_semaphores(),
                p.semaphore_list@ == old(p).semaphore_list@.push(p.semaphore_list@[id as int]),
                p.semaphore_list@[id as int] == Some(gsem),
                p.mutex_list@ == old(p).mutex_list@,
                p.condvar_list@ == old(p).condvar_list@,
                p.deadlock_detect == old(p).deadlock_detect,
                forall|tt: int| t <= tt < tc ==> #[trigger] p.tasks@[tt] == old(p).tasks@[tt],
                forall|tt: int|
                    0 <= tt < t ==> {
                        let pre_t = old(p).tasks@[tt];
                        let post_t = #[trigger] p.tasks@[tt];
                        &&& post_t.alive == pre_t.alive
                        &&& post_t.status == pre_t.status
                        &&& post_t.mutex_need@ == pre_t.mutex_need@
                        &&& post_t.mutex_alloc@ == pre_t.mutex_alloc@
                        &&& post_t.semaphore_need@ == pre_t.semaphore_need@.push(0usize)
                        &&& post_t.semaphore_alloc@ == pre_t.semaphore_alloc@.push(0usize)
                    },
            decreases tc - t,
        {
            p.tasks[t].add_semaphore();
            t += 1;
        }
        proof {
            lemma_semaphore_create_wf(old(p), p, id as int, res_count as int);
        }
    }
    id as isize
}

/// Invariant preservation for semaphore creation: the new slot starts with
/// a full ledger (no units held, no waiters) and the per-task vectors grow
/// or reset in lock-step.
proof fn lemma_semaphore_create_wf(pre: &ProcessState, post: &ProcessState, id: int, res_count: int)
    requires
        pre.wf(),
        0 <= res_count <= isize::MAX,
        0 <= id <= pre.n_semaphores(),
        id < pre.n_semaphores() ==> pre.semaphore_list@[id] is None && post.semaphore_list@
            == pre.semaphore_list@.update(id, post.semaphore_list@[id]),
        id == pre.n_semaphores() ==> post.semaphore_list@ == pre.semaphore_list@.push(
            post.semaphore_list@[id],
        ),
        match post.semaphore_list@[id] {
            Some(sem) => {
                &&& sem.sid() == id
                &&& sem.count() == res_count
                &&& sem.initial() == res_count
                &&& sem.queue().len() == 0
                &&& sem.conserved()
                &&& sem.queue_matches_count()
            },
            None => false,
        },
        post.n_tasks() == pre.n_tasks(),
        forall|t: int|
            0 <= t < pre.n_tasks() ==> {
                let pre_t = pre.tasks@[t];
                let post_t = #[trigger] post.tasks@[t];
                &&& post_t.alive == pre_t.alive
                &&& post_t.status == pre_t.status
                &&& post_t.mutex_need@ == pre_t.mutex_need@
                &&& post_t.mutex_alloc@ == pre_t.mutex_alloc@
                &&& post_t.semaphore_need@ == if id < pre.n_semaphores() {
                    pre_t.semaphore_need@.update(id, 0usize)
                } else {
                    pre_t.semaphore_need@.push(0usize)
                }
                &&& post_t.semaphore_alloc@ == if id < pre.n_semaphores() {
                    pre_t.semaphore_alloc@.update(id, 0usize)
                } else {
                    pre_t.semaphore_alloc@.push(0usize)
                }
            },
        post.mutex_list@ == pre.mutex_list@,
        post.condvar_list@ == pre.condvar_list@,
    ensures
        post.wf(),
{
    assert forall|t: int, ss: int|
        post.task_live(t) && 0 <= ss < post.n_semaphores() implies (#[trigger] post.tasks@[t].semaphore_need@[ss])
        == crate::process::sem_need_expected(post.tasks@[t].status, ss) by {
        if ss == id {
            match pre.tasks@[t].status {
                TaskStatus::BlockedOnSemaphore(s0) => {
                    if s0 as int == id {
                        assert(pre.task_live(t));
                        assert(id < pre.n_semaphores());
                        assert(pre.semaphore_list@[id] is Some);
                        assert(false);
                    }
                },
                _ => {},
            }
        } else {
            assert(pre.tasks@[t].semaphore_need@[ss] == crate::process::sem_need_expected(
                pre.tasks@[t].status,
                ss,
            ));
        }
    }
    assert forall|s: int| 0 <= s < post.n_semaphores() implies #[trigger] post.sem_slot_ok(s) by {
        if s == id {
            assert forall|t: int| 0 <= t < post.tasks@.len() implies (#[trigger] post.tasks@[t]).semaphore_alloc@[s]
                == 0 by {}
            lemma_sem_col_zero_total(post.tasks@, s, post.tasks@.len() as int);
        } else {
            assert(pre.sem_slot_ok(s));
            crate::process::lemma_sem_total_congruent(
                post.tasks@,
                pre.tasks@,
                s,
                post.tasks@.len() as int,
            );
        }
    }
    assert forall|m: int| 0 <= m < post.n_mutexes() implies #[trigger] post.mutex_slot_ok(m) by {
        assert(pre.mutex_slot_ok(m));
    }
    assert forall|c: int| 0 <= c < post.n_condvars() implies #[trigger] post.condvar_slot_ok(c) by {
        assert(pre.condvar_slot_ok(c));
    }
    assert forall|t1: int, t2: int, m: int|
        post.task_live(t1) && post.task_live(t2) && t1 != t2 && 0 <= m
            < post.n_mutexes() implies !(post.holds_mutex(t1, m) && post.holds_mutex(t2, m)) by {
        assert(!(pre.holds_mutex(t1, m) && pre.holds_mutex(t2, m)));
    }
}

/// A column of zeros sums to zero.
proof fn lemma_sem_col_zero_total(tasks: Seq<crate::task::TaskControlBlock>, s: int, k: int)
    requires
        forall|t: int| 0 <= t < k ==> (#[trigger] tasks[t]).semaphore_alloc@[s] == 0,
    ensures
        sem_alloc_total_upto(tasks, s, k) == 0,
    decreases k,
{
    if k > 0 {
        lemma_sem_col_zero_total(tasks, s, k - 1);
    }
}

/// Creates a mutex of the chosen discipline (`blocking` picks the
/// queue-based variant, otherwise the spin variant), reusing the first
/// freed slot if one exists and appending otherwise; every task's mutex
/// accounting vectors are kept in lock-step with the registry.
pub fn sys_mutex_create(p: &mut ProcessState, blocking: bool) -> (id: isize)
    requires
        old(p).wf(),
        old(p).n_mutexes() < isize::MAX,
    ensures
        final(p).wf(),
        0 <= id <= old(p).n_mutexes(),
        forall|k: int| 0 <= k < id ==> (#[trigger] old(p).mutex_list@[k]) is Some,
        match final(p).mutex_list@[id as int] {
            Some(mx) => {
                &&& mx.id() == id
                &&& !mx.locked()
                &&& mx.queue().len() == 0
                &&& mx.blocks() == blocking
            },
            None => false,
        },
        id < old(p).n_mutexes() ==> old(p).mutex_list@[id as int] is None
            && final(p).mutex_list@ == old(p).mutex_list@.update(
            id as int,
            final(p).mutex_list@[id as int],
        ),
        id == old(p).n_mutexes() ==> final(p).mutex_list@ == old(p).mutex_list@.push(
            final(p).mutex_list@[id as int],
        ),
        final(p).n_tasks() == old(p).n_tasks(),
        forall|t: int|
            0 <= t < old(p).n_tasks() ==> {
                let pre_t = old(p).tasks@[t];
                let post_t = #[trigger] final(p).tasks@[t];
                &&& post_t.alive == pre_t.alive
                &&& post_t.status == pre_t.status
                &&& post_t.semaphore_need@ == pre_t.semaphore_need@
                &&& post_t.semaphore_alloc@ == pre_t.semaphore_alloc@
                &&& post_t.mutex_need@ == if id < old(p).n_mutexes() {
                    pre_t.mutex_need@.update(id as int, 0usize)
                } else {
                    pre_t.mutex_need@.push(0usize)
                }
                &&& post_t.mutex_alloc@ == if id < old(p).n_mutexes() {
                    pre_t.mutex_alloc@.update(id as int, 0usize)
                } else {
                    pre_t.mutex_alloc@.push(0usize)
                }
            },
        final(p).semaphore_list@ == old(p).semaphore_list@,
        final(p).condvar_list@ == old(p).condvar_list@,
        final(p).deadlock_detect == old(p).deadlock_detect,
{
    let n = p.mutex_list.len();
    let id = find_free_slot(&p.mutex_list);
    let mx = if !blocking {
        MutexInstance::Spin(crate::mutex::MutexSpin::new(id))
    } else {
        MutexInstance::Blocking(crate::mutex::MutexBlocking::new(id))
    };
    let ghost gmx = mx;
    let tc = p.tasks.len();
    if id < n {
        p.mutex_list[id] = Some(mx);
        let mut t: usize = 0;
        while t < tc
            invariant
                t <= tc,
                tc == p.tasks@.len(),
                p.tasks@.len() == old(p).tasks@.len(),
                old(p).wf(),
                (id as int) < old(p).n_mutexes(),
                p.mutex_list@ == old(p).mutex_list@.update(id as int, p.mutex_list@[id as int]),
                p.mutex_list@[id as int] == Some(gmx),
                p.semaphore_list@ == old(p).semaphore_list@,
                p.condvar_list@ == old(p).condvar_list@,
                p.deadlock_detect == old(p).deadlock_detect,
                forall|tt: int| t <= tt < tc ==> #[trigger] p.tasks@[tt] == old(p).tasks@[tt],
                forall|tt: int|
                    0 <= tt < t ==> {
                        let pre_t = old(p).tasks@[tt];
                        let post_t = #[trigger] p.tasks@[tt];
                        &&& post_t.alive == pre_t.alive
                        &&& post_t.status == pre_t.status
                        &&& post_t.semaphore_need@ == pre_t.semaphore_need@
                        &&& post_t.semaphore_alloc@ == pre_t.semaphore_alloc@
                        &&& post_t.mutex_need@ == pre_t.mutex_need@.update(id as int, 0usize)
                        &&& post_t.mutex_alloc@ == pre_t.mutex_alloc@.update(id as int, 0usize)
                    },
            decreases tc - t,
        {
            proof {
                assert(old(p).tasks@[t as int].mutex_need@.len() == old(p).n_mutexes());
            }
            p.tasks[t].reset_mutex(id);
            t += 1;
        }
        proof {
            lemma_mutex_create_wf(old(p), p, id as int, blocking);
        }
    } else {
        p.mutex_list.push(Some(mx));
        let mut t: usize = 0;
        while t < tc
            invariant
                t <= tc,
                tc == p.tasks@.len(),
                p.tasks@.len() == old(p).tasks@.len(),
                old(p).wf(),
                id as int == old(p).n_mutexes(),
                p.mutex_list@ == old(p).mutex_list@.push(p.mutex_list@[id as int]),
                p.mutex_list@[id as int] == Some(gmx),
                p.semaphore_list@ == old(p).semaphore_list@,
                p.condvar_list@ == old(p).condvar_list@,
                p.deadlock_detect == old(p).deadlock_detect,
                forall|tt: int| t <= tt < tc ==> #[trigger] p.tasks@[tt] == old(p).tasks@[tt],
                forall|tt: int|
                    0 <= tt < t ==> {
                        let pre_t = old(p).tasks@[tt];
                        let post_t = #[trigger] p.tasks@[tt];
                        &&& post_t.alive == pre_t.alive
                        &&& post_t.status == pre_t.status
                        &&& post_t.semaphore_need@ == pre_t.semaphore_need@
                        &&& post_t.semaphore_alloc@ == pre_t.semaphore_alloc@
                        &&& post_t.mutex_need@ == pre_t.mutex_need@.push(0usize)
                        &&& post_t.mutex_alloc@ == pre_t.mutex_alloc@.push(0usize)
                    },
            decreases tc - t,
        {
            p.tasks[t].add_mutex();
            t += 1;
        }
        proof {
            lemma_mutex_create_wf(old(p), p, id as int, blocking);
        }
    }
    id as isize
}

/// Invariant preservation for mutex creation: the new slot is unheld with
/// an empty queue, no task references its id, and the per-task vectors
/// grow or reset in lock-step.
proof fn lemma_mutex_create_wf(pre: &ProcessState, post: &ProcessState, id: int, blocking: bool)
    requires
        pre.wf(),
        0 <= id <= pre.n_mutexes(),
        id < pre.n_mutexes() ==> pre.mutex_list@[id] is None && post.mutex_list@
            == pre.mutex_list@.update(id, post.mutex_list@[id]),
        id == pre.n_mutexes() ==> post.mutex_list@ == pre.mutex_list@.push(post.mutex_list@[id]),
        match post.mutex_list@[id] {
            Some(mx) => {
                &&& mx.id() == id
                &&& !mx.locked()
                &&& mx.queue().len() == 0
                &&& mx.blocks() == blocking
            },
            None => false,
        },
        post.n_tasks() == pre.n_tasks(),
        forall|t: int|
            0 <= t < pre.n_tasks() ==> {
                let pre_t = pre.tasks@[t];
                let post_t = #[trigger] post.tasks@[t];
                &&& post_t.alive == pre_t.alive
                &&& post_t.status == pre_t.status
                &&& post_t.semaphore_need@ == pre_t.semaphore_need@
                &&& post_t.semaphore_alloc@ == pre_t.semaphore_alloc@
                &&& post_t.mutex_need@ == if id < pre.n_mutexes() {
                    pre_t.mutex_need@.update(id, 0usize)
                } else {
                    pre_t.mutex_need@.push(0usize)
                }
                &&& post_t.mutex_alloc@ == if id < pre.n_mutexes() {
                    pre_t.mutex_alloc@.update(id, 0usize)
                } else {
                    pre_t.mutex_alloc@.push(0usize)
                }
            },
        post.semaphore_list@ == pre.semaphore_list@,
        post.condvar_list@ == pre.condvar_list@,
    ensures
        post.wf(),
{
    assert forall|t: int|
        post.task_live(t) implies match (#[trigger] post.tasks@[t]).status {
        TaskStatus::Runnable => true,
        TaskStatus::Sleeping => true,
        TaskStatus::SpinningOn(m) => {
            &&& m < post.n_mutexes()
            &&& match post.mutex_list@[m as int] {
                Some(mx) => !mx.blocks(),
                None => false,
            }
            &&& post.tasks@[t].mutex_alloc@[m as int] == 0
        },
        TaskStatus::BlockedOnMutex(m) => {
            &&& m < post.n_mutexes()
            &&& match post.mutex_list@[m as int] {
                Some(mx) => mx.blocks(),
                None => false,
            }
            &&& post.tasks@[t].mutex_alloc@[m as int] == 0
        },
        TaskStatus::BlockedOnSemaphore(s) => {
            &&& s < post.n_semaphores()
            &&& post.semaphore_list@[s as int] is Some
        },
        TaskStatus::BlockedOnCondvar(c) => {
            &&& c < post.n_condvars()
            &&& post.condvar_list@[c as int] is Some
        },
    } by {
        assert(pre.task_live(t));
        match pre.tasks@[t].status {
            TaskStatus::SpinningOn(m0) => {
                assert(m0 as int != id);
            },
            TaskStatus::BlockedOnMutex(m0) => {
                assert(m0 as int != id);
            },
            _ => {},
        }
    }
    assert forall|t: int, mm: int|
        post.task_live(t) && 0 <= mm < post.n_mutexes() implies (#[trigger] post.tasks@[t].mutex_need@[mm])
        == crate::process::mutex_need_expected(post.tasks@[t].status, mm) by {
        if mm == id {
            match pre.tasks@[t].status {
                TaskStatus::SpinningOn(m0) => {
                    if m0 as int == id {
                        assert(pre.mutex_list@[id] is Some);
                        assert(false);
                    }
                },
                TaskStatus::BlockedOnMutex(m0) => {
                    if m0 as int == id {
                        assert(pre.mutex_list@[id] is Some);
                        assert(false);
                    }
                },
                _ => {},
            }
        } else {
            assert(pre.tasks@[t].mutex_need@[mm] == crate::process::mutex_need_expected(
                pre.tasks@[t].status,
                mm,
            ));
        }
    }
    assert forall|s: int| 0 <= s < post.n_semaphores() implies #[trigger] post.sem_slot_ok(s) by {
        assert(pre.sem_slot_ok(s));
        crate::process::lemma_sem_total_congruent(
            post.tasks@,
            pre.tasks@,
            s,
            post.tasks@.len() as int,
        );
    }
    assert forall|m: int| 0 <= m < post.n_mutexes() implies #[trigger] post.mutex_slot_ok(m) by {
        if m == id {
            assert forall|t: int|
                post.task_live(t) implies (#[trigger] post.tasks@[t]).mutex_alloc@[m] == 0 by {}
        } else {
            assert(pre.mutex_slot_ok(m));
        }
    }
    assert forall|c: int| 0 <= c < post.n_condvars() implies #[trigger] post.condvar_slot_ok(c) by {
        assert(pre.condvar_slot_ok(c));
    }
    assert forall|t1: int, t2: int, m: int|
        post.task_live(t1) && post.task_live(t2) && t1 != t2 && 0 <= m
            < post.n_mutexes() implies !(post.holds_mutex(t1, m) && post.holds_mutex(t2, m)) by {
        if m == id {
            assert(post.tasks@[t1].mutex_alloc@[m] == 0);
        } else {
            assert(!(pre.holds_mutex(t1, m) && pre.holds_mutex(t2, m)));
        }
    }
}

/// Locks mutex `mutex_id` on behalf of task `tid`. When detection is
/// enabled, the detector is consulted once per acquisition, on the first
/// attempt; if it predicts a deadlock, nothing is acquired, the task is
/// not blocked, and `-0xDEAD` is returned. Otherwise the call acquires a
/// free lock immediately; on contention the blocking variant parks the
/// caller on the FIFO queue and the spin variant records the outstanding
/// request and leaves the caller yielding and retrying. A retry re-enters
/// this call with the spinning status: it records no second need and does
/// not consult the detector again — its request is already counted in its
/// stored need entry, which the detector's hypothetical grant simulates
/// only for a request not yet recorded. A task never locks a mutex it
/// already holds: that would block it on itself for good, so it is caller
/// misuse, like unlocking an unheld mutex.
pub fn sys_mutex_lock(p: &mut ProcessState, tid: usize, mutex_id: usize) -> (r: isize)
    requires
        old(p).wf(),
        old(p).task_live(tid as int),
        (mutex_id as int) < old(p).n_mutexes(),
        old(p).mutex_list@[mutex_id as int] is Some,
        old(p).tasks@[tid as int].mutex_alloc@[mutex_id as int] == 0,
        old(p).tasks@[tid as int].status == TaskStatus::Runnable || old(p).tasks@[tid as int].status
            == TaskStatus::SpinningOn(mutex_id),
    ensures
        final(p).wf(),
        final(p).deadlock_detect == old(p).deadlock_detect,
        final(p).semaphore_list@ == old(p).semaphore_list@,
        final(p).condvar_list@ == old(p).condvar_list@,
        final(p).n_tasks() == old(p).n_tasks(),
        old(p).deadlock_detect && old(p).tasks@[tid as int].status == TaskStatus::Runnable
            && mutex_snapshot_deadlocks(old(p), tid as int, mutex_id as int) ==> {
            &&& r == DEADLOCK_ERR
            &&& final(p).tasks@ == old(p).tasks@
            &&& final(p).mutex_list@ == old(p).mutex_list@
        },
        !(old(p).deadlock_detect && old(p).tasks@[tid as int].status == TaskStatus::Runnable
            && mutex_snapshot_deadlocks(old(p), tid as int, mutex_id as int)) ==> {
            &&& r == 0
            &&& final(p).tasks@ == old(p).tasks@.update(tid as int, final(p).tasks@[tid as int])
            &&& final(p).mutex_list@ == old(p).mutex_list@.update(
                mutex_id as int,
                final(p).mutex_list@[mutex_id as int],
            )
            &&& final(p).mutex_list@[mutex_id as int] is Some
            &&& {
                let row_pre = old(p).tasks@[tid as int];
                let row = final(p).tasks@[tid as int];
                let mx0 = old(p).mutex_list@[mutex_id as int].unwrap();
                let mx1 = final(p).mutex_list@[mutex_id as int].unwrap();
                &&& row.alive
                &&& row.mutex_alloc@.len() == row_pre.mutex_alloc@.len()
                &&& row.semaphore_need@ == row_pre.semaphore_need@
                &&& row.semaphore_alloc@ == row_pre.semaphore_alloc@
                &&& mx1.id() == mutex_id
                &&& mx1.blocks() == mx0.blocks()
                &&& (!mx0.locked() ==> {
                    &&& row.status == TaskStatus::Runnable
                    &&& row.mutex_need@ == row_pre.mutex_need@.update(mutex_id as int, 0usize)
                    &&& row.mutex_alloc@ == row_pre.mutex_alloc@.update(mutex_id as int, 1usize)
                    &&& mx1.locked()
                    &&& mx1.queue() == mx0.queue()
                })
                &&& (mx0.locked() && mx0.blocks() ==> {
                    &&& row.status == TaskStatus::BlockedOnMutex(mutex_id)
                    &&& row.mutex_need@ == row_pre.mutex_need@.update(mutex_id as int, 1usize)
                    &&& row.mutex_alloc@ == row_pre.mutex_alloc@
                    &&& mx1.locked()
                    &&& mx1.queue() == mx0.queue().push(tid)
                })
                &&& (mx0.locked() && !mx0.blocks() ==> {
                    &&& row.status == TaskStatus::SpinningOn(mutex_id)
                    &&& row.mutex_need@ == row_pre.mutex_need@.update(mutex_id as int, 1usize)
                    &&& row.mutex_alloc@ == row_pre.mutex_alloc@
                    &&& mx1.locked()
                    &&& mx1.queue() == mx0.queue()
                })
            }
        },
{
    let st = p.tasks[tid].status;
    if st == TaskStatus::Runnable && p.deadlock_detect {
        let dl = deadlock_detect_mutex(p, tid, mutex_id);
        if dl {
            return DEADLOCK_ERR;
        }
    }
    let ghost pre = *p;
    proof {
        assert(pre.mutex_slot_ok(mutex_id as int));
        assert(pre.tasks@[tid as int].mutex_need@.len() == pre.n_mutexes());
        assert(pre.tasks@[tid as int].mutex_need@[mutex_id as int]
            == crate::process::mutex_need_expected(pre.tasks@[tid as int].status, mutex_id as int));
    }
    if st == TaskStatus::Runnable {
        match &p.mutex_list[mutex_id] {
            Some(mx) => {
                proof {
                    assert(pre.tasks@[tid as int].mutex_need@[mutex_id as int]
                        == crate::process::mutex_need_expected(
                        pre.tasks@[tid as int].status,
                        mutex_id as int,
                    ));
                }
                mx.add_need(&mut p.tasks[tid]);
            },
            None => {
                proof {
                    assert(false);
                }
            },
        }
    }
    let ghost mid1 = *p;
    let attempt = match &mut p.mutex_list[mutex_id] {
        Some(mx) => mx.lock(tid),
        None => {
            proof {
                assert(false);
            }
            LockAttempt::WouldSpin
        },
    };
    match attempt {
        LockAttempt::Acquired => {
            proof {
                let mxg = p.mutex_list@[mutex_id as int].unwrap();
                assert(mxg.id() == mutex_id as int);
                assert(p.tasks@[tid as int].mutex_need@[mutex_id as int] >= 1);
                assert(p.tasks@[tid as int].mutex_alloc@[mutex_id as int] == 0);
                assert(p.tasks@[tid as int].mutex_alloc@.len() == pre.n_mutexes());
            }
            match &p.mutex_list[mutex_id] {
                Some(mx) => {
                    mx.need_into_alloc(&mut p.tasks[tid]);
                },
                None => {
                    proof {
                        assert(false);
                    }
                },
            }
            p.tasks[tid].status = TaskStatus::Runnable;
        },
        LockAttempt::Queued => {
            p.tasks[tid].status = TaskStatus::BlockedOnMutex(mutex_id);
        },
        LockAttempt::WouldSpin => {
            p.tasks[tid].status = TaskStatus::SpinningOn(mutex_id);
        },
    }
    proof {
        let row_pre = pre.tasks@[tid as int];
        let row = p.tasks@[tid as int];
        assert(row.mutex_need@ =~= row_pre.mutex_need@.update(
            mutex_id as int,
            row.mutex_need@[mutex_id as int],
        ));
        assert(row.mutex_alloc@ =~= row_pre.mutex_alloc@.update(
            mutex_id as int,
            row.mutex_alloc@[mutex_id as int],
        ));
        assert(p.tasks@ =~= pre.tasks@.update(tid as int, p.tasks@[tid as int]));
        assert(p.mutex_list@ =~= pre.mutex_list@.update(
            mutex_id as int,
            p.mutex_list@[mutex_id as int],
        ));
        lemma_mutex_lock_wf(&pre, p, tid as int, mutex_id as int);
    }
    0
}

/// Invariant preservation for one lock attempt by `tid` on mutex `mid`.
proof fn lemma_mutex_lock_wf(pre: &ProcessState, post: &ProcessState, tid: int, mid: int)
    requires
        pre.wf(),
        pre.task_live(tid),
        0 <= tid <= usize::MAX,
        0 <= mid <= usize::MAX,
        0 <= mid < pre.n_mutexes(),
        pre.mutex_list@[mid] is Some,
        pre.tasks@[tid].mutex_alloc@[mid] == 0,
        pre.tasks@[tid].status == TaskStatus::Runnable || pre.tasks@[tid].status
            == TaskStatus::SpinningOn(mid as usize),
        post.n_tasks() == pre.n_tasks(),
        post.tasks@ == pre.tasks@.update(tid, post.tasks@[tid]),
        post.mutex_list@ == pre.mutex_list@.update(mid, post.mutex_list@[mid]),
        post.semaphore_list@ == pre.semaphore_list@,
        post.condvar_list@ == pre.condvar_list@,
        post.mutex_list@[mid] is Some,
        ({
            let row_pre = pre.tasks@[tid];
            let row = post.tasks@[tid];
            let mx0 = pre.mutex_list@[mid].unwrap();
            let mx1 = post.mutex_list@[mid].unwrap();
            &&& row.alive
            &&& row.semaphore_need@ == row_pre.semaphore_need@
            &&& row.semaphore_alloc@ == row_pre.semaphore_alloc@
            &&& mx1.id() == mid
            &&& mx1.blocks() == mx0.blocks()
            &&& (!mx0.locked() ==> {
                &&& row.status == TaskStatus::Runnable
                &&& row.mutex_need@ == row_pre.mutex_need@.update(mid, 0usize)
                &&& row.mutex_alloc@ == row_pre.mutex_alloc@.update(mid, 1usize)
                &&& mx1.locked()
                &&& mx1.queue() == mx0.queue()
            })
            &&& (mx0.locked() && mx0.blocks() ==> {
                &&& row.status == TaskStatus::BlockedOnMutex(mid as usize)
                &&& row.mutex_need@ == row_pre.mutex_need@.update(mid, 1usize)
                &&& row.mutex_alloc@ == row_pre.mutex_alloc@
                &&& mx1.locked()
                &&& mx1.queue() == mx0.queue().push(tid as usize)
            })
            &&& (mx0.locked() && !mx0.blocks() ==> {
                &&& row.status == TaskStatus::SpinningOn(mid as usize)
                &&& row.mutex_need@ == row_pre.mutex_need@.update(mid, 1usize)
                &&& row.mutex_alloc@ == row_pre.mutex_alloc@
                &&& mx1.locked()
                &&& mx1.queue() == mx0.queue()
            })
        }),
    ensures
        post.wf(),
{
    let row_pre = pre.tasks@[tid];
    let row = post.tasks@[tid];
    let mx0 = pre.mutex_list@[mid].unwrap();
    let mx1 = post.mutex_list@[mid].unwrap();
    // The caller's pre-status pins the pre-need row via the invariant.
    assert(pre.statuses_ok());
    if mx0.locked() && mx0.blocks() {
        // A spinning task only ever targets a spin mutex.
        assert(row_pre.status == TaskStatus::Runnable);
    }
    assert forall|t: int, mm: int|
        post.task_live(t) && 0 <= mm < post.n_mutexes() implies (#[trigger] post.tasks@[t].mutex_need@[mm])
        == crate::process::mutex_need_expected(post.tasks@[t].status, mm) by {
        if t != tid {
            assert(pre.tasks@[t].mutex_need@[mm] == crate::process::mutex_need_expected(
                pre.tasks@[t].status,
                mm,
            ));
        } else {
            assert(pre.tasks@[t].mutex_need@[mm] == crate::process::mutex_need_expected(
                row_pre.status,
                mm,
            ));
        }
    }
    assert forall|t: int, ss: int|
        post.task_live(t) && 0 <= ss < post.n_semaphores() implies (#[trigger] post.tasks@[t].semaphore_need@[ss])
        == crate::process::sem_need_expected(post.tasks@[t].status, ss) by {
        if t != tid {
            assert(pre.tasks@[t].semaphore_need@[ss] == crate::process::sem_need_expected(
                pre.tasks@[t].status,
                ss,
            ));
        } else {
            assert(pre.tasks@[t].semaphore_need@[ss] == crate::process::sem_need_expected(
                row_pre.status,
                ss,
            ));
        }
    }
    assert forall|t1: int, t2: int, m: int|
        post.task_live(t1) && post.task_live(t2) && t1 != t2 && 0 <= m
            < post.n_mutexes() implies !(post.holds_mutex(t1, m) && post.holds_mutex(t2, m)) by {
        if m == mid && !mx0.locked() {
            // The lock was free: nobody held it, now only the caller does.
            assert(pre.mutex_slot_ok(m));
            if t1 != tid {
                assert(pre.task_live(t1));
                assert(pre.tasks@[t1].mutex_alloc@[m] == 0);
                assert(!post.holds_mutex(t1, m));
            } else {
                assert(pre.task_live(t2));
                assert(pre.tasks@[t2].mutex_alloc@[m] == 0);
                assert(!post.holds_mutex(t2, m));
            }
        } else {
            assert(!(pre.holds_mutex(t1, m) && pre.holds_mutex(t2, m)));
        }
    }
    assert forall|s: int| 0 <= s < post.n_semaphores() implies #[trigger] post.sem_slot_ok(s) by {
        assert(pre.sem_slot_ok(s));
        crate::process::lemma_sem_total_congruent(
            post.tasks@,
            pre.tasks@,
            s,
            post.tasks@.len() as int,
        );
        match post.semaphore_list@[s] {
            Some(sem) => {
                assert forall|i: int| 0 <= i < sem.queue().len() implies {
                    let w = (#[trigger] sem.queue()[i]) as int;
                    &&& post.task_live(w)
                    &&& post.tasks@[w].status == TaskStatus::BlockedOnSemaphore(s as usize)
                } by {
                    let w = sem.queue()[i] as int;
                    assert(pre.task_live(w));
                    assert(pre.tasks@[w].status == TaskStatus::BlockedOnSemaphore(s as usize));
                    assert(w != tid);
                }
            },
            None => {},
        }
    }
    assert forall|c: int| 0 <= c < post.n_condvars() implies #[trigger] post.condvar_slot_ok(c) by {
        assert(pre.condvar_slot_ok(c));
        match post.condvar_list@[c] {
            Some(cv) => {
                assert forall|i: int| 0 <= i < cv.queue().len() implies {
                    let w = (#[trigger] cv.queue()[i]) as int;
                    &&& post.task_live(w)
                    &&& post.tasks@[w].status == TaskStatus::BlockedOnCondvar(c as usize)
                } by {
                    let w = cv.queue()[i] as int;
                    assert(pre.task_live(w));
                    assert(pre.tasks@[w].status == TaskStatus::BlockedOnCondvar(c as usize));
                    assert(w != tid);
                }
            },
            None => {},
        }
    }
    assert forall|m: int| 0 <= m < post.n_mutexes() implies #[trigger] post.mutex_slot_ok(m) by {
        assert(pre.mutex_slot_ok(m));
        if m == mid {
            if !mx0.locked() {
                assert(mx0.queue().len() == 0);
                assert(mx1.queue().len() == 0);
            } else if mx0.blocks() {
                assert forall|i: int| 0 <= i < mx1.queue().len() implies {
                    let w = (#[trigger] mx1.queue()[i]) as int;
                    &&& post.task_live(w)
                    &&& post.tasks@[w].status == TaskStatus::BlockedOnMutex(m as usize)
                } by {
                    if i < mx0.queue().len() {
                        let w = mx0.queue()[i] as int;
                        assert(pre.task_live(w));
                        assert(pre.tasks@[w].status == TaskStatus::BlockedOnMutex(m as usize));
                        assert(w != tid);
                        assert(mx1.queue()[i] == mx0.queue()[i]);
                    } else {
                        assert(mx1.queue()[i] == tid as usize);
                    }
                }
                assert forall|i1: int, i2: int|
                    0 <= i1 < i2 < mx1.queue().len() implies #[trigger] mx1.queue()[i1]
                    != #[trigger] mx1.queue()[i2] by {
                    if i2 < mx0.queue().len() {
                        assert(mx0.queue()[i1] != mx0.queue()[i2]);
                    } else {
                        let w1 = mx0.queue()[i1] as int;
                        assert(pre.tasks@[w1].status == TaskStatus::BlockedOnMutex(m as usize));
                        assert(pre.tasks@[tid].status != TaskStatus::BlockedOnMutex(m as usize));
                    }
                }
            } else {
                assert(mx1.queue() == mx0.queue());
                assert(mx0.queue().len() == 0);
            }
        } else {
            match post.mutex_list@[m] {
                Some(mx) => {
                    assert(post.mutex_list@[m] == pre.mutex_list@[m]);
                    if !mx.locked() {
                        assert forall|t: int|
                            post.task_live(t) implies (#[trigger] post.tasks@[t]).mutex_alloc@[m]
                            == 0 by {
                            assert(pre.task_live(t));
                            assert(pre.tasks@[t].mutex_alloc@[m] == 0);
                        }
                    }
                    assert forall|i: int| 0 <= i < mx.queue().len() implies {
                        let w = (#[trigger] mx.queue()[i]) as int;
                        &&& post.task_live(w)
                        &&& post.tasks@[w].status == TaskStatus::BlockedOnMutex(m as usize)
                    } by {
                        let w = mx.queue()[i] as int;
                        assert(pre.task_live(w));
                        assert(pre.tasks@[w].status == TaskStatus::BlockedOnMutex(m as usize));
                        assert(w != tid);
                    }
                },
                None => {
                    assert forall|t: int|
                        post.task_live(t) implies (#[trigger] post.tasks@[t]).mutex_alloc@[m]
                        == 0 by {
                        assert(pre.task_live(t));
                        assert(pre.tasks@[t].mutex_alloc@[m] == 0);
                    }
                },
            }
        }
    }
}

/// Unlocks mutex `mutex_id` on behalf of task `tid`, which must hold it
/// (unlocking an unheld mutex is a fatal assertion in the kernel and is
/// excluded here). If a task is parked on the lock, ownership is handed
/// directly to the queue head, which is woken with its accounting moved
/// from need to alloc — the lock never appears free in between; otherwise
/// the lock becomes free.
pub fn sys_mutex_unlock(p: &mut ProcessState, tid: usize, mutex_id: usize) -> (r: isize)
    requires
        old(p).wf(),
        old(p).task_live(tid as int),
        (mutex_id as int) < old(p).n_mutexes(),
        old(p).mutex_list@[mutex_id as int] is Some,
        old(p).tasks@[tid as int].status == TaskStatus::Runnable,
        old(p).tasks@[tid as int].mutex_alloc@[mutex_id as int] >= 1,
    ensures
        final(p).wf(),
        r == 0,
        final(p).deadlock_detect == old(p).deadlock_detect,
        final(p).semaphore_list@ == old(p).semaphore_list@,
        final(p).condvar_list@ == old(p).condvar_list@,
        final(p).n_tasks() == old(p).n_tasks(),
        final(p).mutex_list@ == old(p).mutex_list@.update(
            mutex_id as int,
            final(p).mutex_list@[mutex_id as int],
        ),
        final(p).mutex_list@[mutex_id as int] is Some,
        ({
            let row_pre = old(p).tasks@[tid as int];
            let row = final(p).tasks@[tid as int];
            let mx0 = old(p).mutex_list@[mutex_id as int].unwrap();
            let mx1 = final(p).mutex_list@[mutex_id as int].unwrap();
            &&& row.alive
            &&& row.status == TaskStatus::Runnable
            &&& row.mutex_need@ == row_pre.mutex_need@
            &&& row.mutex_alloc@ == row_pre.mutex_alloc@.update(mutex_id as int, 0usize)
            &&& row.semaphore_need@ == row_pre.semaphore_need@
            &&& row.semaphore_alloc@ == row_pre.semaphore_alloc@
            &&& mx1.id() == mutex_id
            &&& mx1.blocks() == mx0.blocks()
            &&& (mx0.queue().len() == 0 ==> {
                &&& !mx1.locked()
                &&& mx1.queue() == mx0.queue()
                &&& final(p).tasks@ == old(p).tasks@.update(tid as int, row)
            })
            &&& (mx0.queue().len() > 0 ==> {
                let w = mx0.queue()[0] as int;
                let wrow_pre = old(p).tasks@[w];
                let wrow = final(p).tasks@[w];
                &&& mx1.locked()
                &&& mx1.queue() == mx0.queue().drop_first()
                &&& w != tid as int
                &&& wrow.alive
                &&& wrow.status == TaskStatus::Runnable
                &&& wrow.mutex_need@ == wrow_pre.mutex_need@.update(mutex_id as int, 0usize)
                &&& wrow.mutex_alloc@ == wrow_pre.mutex_alloc@.update(mutex_id as int, 1usize)
                &&& wrow.semaphore_need@ == wrow_pre.semaphore_need@
                &&& wrow.semaphore_alloc@ == wrow_pre.semaphore_alloc@
                &&& final(p).tasks@ == old(p).tasks@.update(tid as int, row).update(w, wrow)
            })
        }),
{
    let ghost pre = *p;
    proof {
        assert(pre.mutex_slot_ok(mutex_id as int));
        assert(pre.tasks@[tid as int].mutex_alloc@.len() == pre.n_mutexes());
        let mx0 = pre.mutex_list@[mutex_id as int].unwrap();
        assert(mx0.locked()) by {
            if !mx0.locked() {
                assert(pre.tasks@[tid as int].mutex_alloc@[mutex_id as int] == 0);
            }
        }
        assert(mx0.id() == mutex_id as int);
    }
    match &p.mutex_list[mutex_id] {
        Some(mx) => {
            mx.release_alloc(&mut p.tasks[tid]);
        },
        None => {
            proof {
                assert(false);
            }
        },
    }
    let woken = match &mut p.mutex_list[mutex_id] {
        Some(mx) => mx.unlock(),
        None => {
            proof {
                assert(false);
            }
            None
        },
    };
    match woken {
        Some(w) => {
            proof {
                let mx0 = pre.mutex_list@[mutex_id as int].unwrap();
                assert(w == mx0.queue()[0]);
                assert(pre.task_live(w as int));
                assert(pre.tasks@[w as int].status == TaskStatus::BlockedOnMutex(mutex_id));
                assert(w as int != tid as int);
                assert(pre.tasks@[w as int].mutex_need@[mutex_id as int]
                    == crate::process::mutex_need_expected(
                    pre.tasks@[w as int].status,
                    mutex_id as int,
                ));
                assert(pre.tasks@[w as int].mutex_need@[mutex_id as int] == 1);
                assert(pre.tasks@[w as int].mutex_alloc@[mutex_id as int] == 0);
                assert(pre.tasks@[w as int].mutex_need@.len() == pre.n_mutexes());
                assert(p.tasks@[w as int] == pre.tasks@[w as int]);
                let mxg = p.mutex_list@[mutex_id as int].unwrap();
                assert(mxg.id() == mutex_id as int);
            }
            match &p.mutex_list[mutex_id] {
                Some(mx) => {
                    mx.need_into_alloc(&mut p.tasks[w]);
                },
                None => {
                    proof {
                        assert(false);
                    }
                },
            }
            p.tasks[w].status = TaskStatus::Runnable;
            proof {
                let mx0 = pre.mutex_list@[mutex_id as int].unwrap();
                let wi = w as int;
                let row = p.tasks@[tid as int];
                let wrow = p.tasks@[wi];
                assert(row.mutex_alloc@ =~= pre.tasks@[tid as int].mutex_alloc@.update(
                    mutex_id as int,
                    0usize,
                ));
                assert(wrow.mutex_need@ =~= pre.tasks@[wi].mutex_need@.update(
                    mutex_id as int,
                    0usize,
                ));
                assert(wrow.mutex_alloc@ =~= pre.tasks@[wi].mutex_alloc@.update(
                    mutex_id as int,
                    1usize,
                ));
                assert(p.tasks@ =~= pre.tasks@.update(tid as int, row).update(wi, wrow));
                assert(p.mutex_list@ =~= pre.mutex_list@.update(
                    mutex_id as int,
                    p.mutex_list@[mutex_id as int],
                ));
                lemma_mutex_unlock_wf(&pre, p, tid as int, mutex_id as int);
            }
        },
        None => {
            proof {
                let row = p.tasks@[tid as int];
                assert(row.mutex_alloc@ =~= pre.tasks@[tid as int].mutex_alloc@.update(
                    mutex_id as int,
                    0usize,
                ));
                assert(p.tasks@ =~= pre.tasks@.update(tid as int, row));
                assert(p.mutex_list@ =~= pre.mutex_list@.update(
                    mutex_id as int,
                    p.mutex_list@[mutex_id as int],
                ));
                lemma_mutex_unlock_wf(&pre, p, tid as int, mutex_id as int);
            }
        },
    }
    0
}

/// Invariant preservation for one unlock by `tid` of mutex `mid`.
proof fn lemma_mutex_unlock_wf(pre: &ProcessState, post: &ProcessState, tid: int, mid: int)
    requires
        pre.wf(),
        pre.task_live(tid),
        0 <= tid <= usize::MAX,
        0 <= mid <= usize::MAX,
        0 <= mid < pre.n_mutexes(),
        pre.mutex_list@[mid] is Some,
        pre.tasks@[tid].status == TaskStatus::Runnable,
        pre.tasks@[tid].mutex_alloc@[mid] >= 1,
        post.n_tasks() == pre.n_tasks(),
        post.mutex_list@ == pre.mutex_list@.update(mid, post.mutex_list@[mid]),
        post.semaphore_list@ == pre.semaphore_list@,
        post.condvar_list@ == pre.condvar_list@,
        post.mutex_list@[mid] is Some,
        ({
            let row_pre = pre.tasks@[tid];
            let row = post.tasks@[tid];
            let mx0 = pre.mutex_list@[mid].unwrap();
            let mx1 = post.mutex_list@[mid].unwrap();
            &&& row.alive
            &&& row.status == TaskStatus::Runnable
            &&& row.mutex_need@ == row_pre.mutex_need@
            &&& row.mutex_alloc@ == row_pre.mutex_alloc@.update(mid, 0usize)
            &&& row.semaphore_need@ == row_pre.semaphore_need@
            &&& row.semaphore_alloc@ == row_pre.semaphore_alloc@
            &&& mx1.id() == mid
            &&& mx1.blocks() == mx0.blocks()
            &&& (mx0.queue().len() == 0 ==> {
                &&& !mx1.locked()
                &&& mx1.queue() == mx0.queue()
                &&& post.tasks@ == pre.tasks@.update(tid, row)
            })
            &&& (mx0.queue().len() > 0 ==> {
                let w = mx0.queue()[0] as int;
                let wrow_pre = pre.tasks@[w];
                let wrow = post.tasks@[w];
                &&& mx1.locked()
                &&& mx1.queue() == mx0.queue().drop_first()
                &&& w != tid
                &&& wrow.alive
                &&& wrow.status == TaskStatus::Runnable
                &&& wrow.mutex_need@ == wrow_pre.mutex_need@.update(mid, 0usize)
                &&& wrow.mutex_alloc@ == wrow_pre.mutex_alloc@.update(mid, 1usize)
                &&& wrow.semaphore_need@ == wrow_pre.semaphore_need@
                &&& wrow.semaphore_alloc@ == wrow_pre.semaphore_alloc@
                &&& post.tasks@ == pre.tasks@.update(tid, row).update(w, wrow)
            })
        }),
    ensures
        post.wf(),
{
    let row_pre = pre.tasks@[tid];
    let row = post.tasks@[tid];
    let mx0 = pre.mutex_list@[mid].unwrap();
    let mx1 = post.mutex_list@[mid].unwrap();
    assert(pre.mutex_slot_ok(mid));
    let handoff = mx0.queue().len() > 0;
    let w: int = if handoff {
        mx0.queue()[0] as int
    } else {
        tid
    };
    if handoff {
        assert(pre.task_live(w));
        assert(pre.tasks@[w].status == TaskStatus::BlockedOnMutex(mid as usize));
    }
    assert forall|t: int, mm: int|
        post.task_live(t) && 0 <= mm < post.n_mutexes() implies (#[trigger] post.tasks@[t].mutex_need@[mm])
        == crate::process::mutex_need_expected(post.tasks@[t].status, mm) by {
        if t == tid {
            assert(pre.tasks@[t].mutex_need@[mm] == crate::process::mutex_need_expected(
                row_pre.status,
                mm,
            ));
        } else if handoff && t == w {
            assert(pre.tasks@[t].mutex_need@[mm] == crate::process::mutex_need_expected(
                pre.tasks@[w].status,
                mm,
            ));
        } else {
            assert(pre.tasks@[t].mutex_need@[mm] == crate::process::mutex_need_expected(
                pre.tasks@[t].status,
                mm,
            ));
        }
    }
    assert forall|t: int, ss: int|
        post.task_live(t) && 0 <= ss < post.n_semaphores() implies (#[trigger] post.tasks@[t].semaphore_need@[ss])
        == crate::process::sem_need_expected(post.tasks@[t].status, ss) by {
        if t == tid {
            assert(pre.tasks@[t].semaphore_need@[ss] == crate::process::sem_need_expected(
                row_pre.status,
                ss,
            ));
        } else if handoff && t == w {
            assert(pre.tasks@[t].semaphore_need@[ss] == crate::process::sem_need_expected(
                pre.tasks@[w].status,
                ss,
            ));
        } else {
            assert(pre.tasks@[t].semaphore_need@[ss] == crate::process::sem_need_expected(
                pre.tasks@[t].status,
                ss,
            ));
        }
    }
    assert forall|t1: int, t2: int, m: int|
        post.task_live(t1) && post.task_live(t2) && t1 != t2 && 0 <= m
            < post.n_mutexes() implies !(post.holds_mutex(t1, m) && post.holds_mutex(t2, m)) by {
        if m == mid {
            // Before the call the releaser was the unique holder.
            if post.holds_mutex(t1, m) && post.holds_mutex(t2, m) {
                assert(t1 != tid || t2 != tid);
                if t1 != tid && !(handoff && t1 == w) {
                    assert(pre.tasks@[t1].mutex_alloc@[m] == post.tasks@[t1].mutex_alloc@[m]);
                    assert(pre.holds_mutex(t1, m));
                    assert(!(pre.holds_mutex(t1, m) && pre.holds_mutex(tid, m)));
                    assert(false);
                }
                if t2 != tid && !(handoff && t2 == w) {
                    assert(pre.tasks@[t2].mutex_alloc@[m] == post.tasks@[t2].mutex_alloc@[m]);
                    assert(pre.holds_mutex(t2, m));
                    assert(!(pre.holds_mutex(t2, m) && pre.holds_mutex(tid, m)));
                    assert(false);
                }
                // Both are in {tid, w}; tid no longer holds it.
                assert(!post.holds_mutex(tid, m));
                assert(false);
            }
        } else {
            assert(!(pre.holds_mutex(t1, m) && pre.holds_mutex(t2, m)));
        }
    }
    assert forall|s: int| 0 <= s < post.n_semaphores() implies #[trigger] post.sem_slot_ok(s) by {
        assert(pre.sem_slot_ok(s));
        crate::process::lemma_sem_total_congruent(
            post.tasks@,
            pre.tasks@,
            s,
            post.tasks@.len() as int,
        );
        match post.semaphore_list@[s] {
            Some(sem) => {
                assert forall|i: int| 0 <= i < sem.queue().len() implies {
                    let wq = (#[trigger] sem.queue()[i]) as int;
                    &&& post.task_live(wq)
                    &&& post.tasks@[wq].status == TaskStatus::BlockedOnSemaphore(s as usize)
                } by {
                    let wq = sem.queue()[i] as int;
                    assert(pre.task_live(wq));
                    assert(pre.tasks@[wq].status == TaskStatus::BlockedOnSemaphore(s as usize));
                    assert(wq != tid);
                    assert(wq != w);
                }
            },
            None => {},
        }
    }
    assert forall|c: int| 0 <= c < post.n_condvars() implies #[trigger] post.condvar_slot_ok(c) by {
        assert(pre.condvar_slot_ok(c));
        match post.condvar_list@[c] {
            Some(cv) => {
                assert forall|i: int| 0 <= i < cv.queue().len() implies {
                    let wq = (#[trigger] cv.queue()[i]) as int;
                    &&& post.task_live(wq)
                    &&& post.tasks@[wq].status == TaskStatus::BlockedOnCondvar(c as usize)
                } by {
                    let wq = cv.queue()[i] as int;
                    assert(pre.task_live(wq));
                    assert(pre.tasks@[wq].status == TaskStatus::BlockedOnCondvar(c as usize));
                    assert(wq != tid);
                    assert(wq != w);
                }
            },
            None => {},
        }
    }
    assert forall|m: int| 0 <= m < post.n_mutexes() implies #[trigger] post.mutex_slot_ok(m) by {
        assert(pre.mutex_slot_ok(m));
        if m == mid {
            if !handoff {
                assert(mx0.queue().len() == 0);
                assert(!mx1.locked());
                assert forall|t: int|
                    post.task_live(t) implies (#[trigger] post.tasks@[t]).mutex_alloc@[m]
                    == 0 by {
                    if t != tid {
                        assert(pre.task_live(t));
                        assert(!(pre.holds_mutex(t, m) && pre.holds_mutex(tid, m)));
                        assert(pre.tasks@[t].mutex_alloc@[m] == 0);
                    }
                }
            } else {
                assert forall|i: int| 0 <= i < mx1.queue().len() implies {
                    let wq = (#[trigger] mx1.queue()[i]) as int;
                    &&& post.task_live(wq)
                    &&& post.tasks@[wq].status == TaskStatus::BlockedOnMutex(m as usize)
                } by {
                    assert(mx1.queue()[i] == mx0.queue()[i + 1]);
                    let wq = mx1.queue()[i] as int;
                    assert(pre.task_live(wq));
                    assert(pre.tasks@[wq].status == TaskStatus::BlockedOnMutex(m as usize));
                    assert(wq != tid);
                    assert(mx0.queue()[i + 1] != mx0.queue()[0]);
                    assert(wq != w);
                }
                assert forall|i1: int, i2: int|
                    0 <= i1 < i2 < mx1.queue().len() implies #[trigger] mx1.queue()[i1]
                    != #[trigger] mx1.queue()[i2] by {
                    assert(mx1.queue()[i1] == mx0.queue()[i1 + 1]);
                    assert(mx1.queue()[i2] == mx0.queue()[i2 + 1]);
                    assert(mx0.queue()[i1 + 1] != mx0.queue()[i2 + 1]);
                }
            }
        } else {
            match post.mutex_list@[m] {
                Some(mx) => {
                    if !mx.locked() {
                        assert forall|t: int|
                            post.task_live(t) implies (#[trigger] post.tasks@[t]).mutex_alloc@[m]
                            == 0 by {
                            assert(pre.task_live(t));
                            assert(pre.tasks@[t].mutex_alloc@[m] == 0);
                        }
                    }
                    assert forall|i: int| 0 <= i < mx.queue().len() implies {
                        let wq = (#[trigger] mx.queue()[i]) as int;
                        &&& post.task_live(wq)
                        &&& post.tasks@[wq].status == TaskStatus::BlockedOnMutex(m as usize)
                    } by {
                        let wq = mx.queue()[i] as int;
                        assert(pre.task_live(wq));
                        assert(pre.tasks@[wq].status == TaskStatus::BlockedOnMutex(m as usize));
                        assert(wq != tid);
                        assert(wq != w);
                    }
                },
                None => {
                    assert forall|t: int|
                        post.task_live(t) implies (#[trigger] post.tasks@[t]).mutex_alloc@[m]
                        == 0 by {
                        assert(pre.task_live(t));
                        assert(pre.tasks@[t].mutex_alloc@[m] == 0);
                    }
                },
            }
        }
    }
}

/// Takes one unit of semaphore `sem_id` for task `tid`. When detection is
/// enabled and the detector predicts a deadlock, nothing is taken, the
/// task is not blocked, and `-0xDEAD` is returned. Otherwise the count is
/// decremented; a non-negative result hands the caller its unit at once,
/// a negative one parks the caller on the FIFO queue — its accounting
/// moves from need to alloc only when a later `up` hands it the unit.
pub fn sys_semaphore_down(p: &mut ProcessState, tid: usize, sem_id: usize) -> (r: isize)
    requires
        old(p).wf(),
        old(p).task_live(tid as int),
        (sem_id as int) < old(p).n_semaphores(),
        old(p).semaphore_list@[sem_id as int] is Some,
        old(p).tasks@[tid as int].status == TaskStatus::Runnable,
        old(p).semaphore_list@[sem_id as int].unwrap().count() > isize::MIN,
    ensures
        final(p).wf(),
        final(p).deadlock_detect == old(p).deadlock_detect,
        final(p).mutex_list@ == old(p).mutex_list@,
        final(p).condvar_list@ == old(p).condvar_list@,
        final(p).n_tasks() == old(p).n_tasks(),
        old(p).deadlock_detect && sem_snapshot_deadlocks(old(p), tid as int, sem_id as int) ==> {
            &&& r == DEADLOCK_ERR
            &&& final(p).tasks@ == old(p).tasks@
            &&& final(p).semaphore_list@ == old(p).semaphore_list@
        },
        !(old(p).deadlock_detect && sem_snapshot_deadlocks(old(p), tid as int, sem_id as int))
            ==> {
            &&& r == 0
            &&& final(p).tasks@ == old(p).tasks@.update(tid as int, final(p).tasks@[tid as int])
            &&& final(p).semaphore_list@ == old(p).semaphore_list@.update(
                sem_id as int,
                final(p).semaphore_list@[sem_id as int],
            )
            &&& final(p).semaphore_list@[sem_id as int] is Some
            &&& {
                let row_pre = old(p).tasks@[tid as int];
                let row = final(p).tasks@[tid as int];
                let sem0 = old(p).semaphore_list@[sem_id as int].unwrap();
                let sem1 = final(p).semaphore_list@[sem_id as int].unwrap();
                &&& row.alive
                &&& row.mutex_need@ == row_pre.mutex_need@
                &&& row.mutex_alloc@ == row_pre.mutex_alloc@
                &&& sem1.sid() == sem_id
                &&& sem1.count() == sem0.count() - 1
                &&& sem1.initial() == sem0.initial()
                &&& sem1.ups() == sem0.ups()
                &&& sem1.downs() == sem0.downs() + 1
                &&& (sem0.count() > 0 ==> {
                    &&& row.status == TaskStatus::Runnable
                    &&& row.semaphore_need@ == row_pre.semaphore_need@
                    &&& row.semaphore_alloc@ == row_pre.semaphore_alloc@.update(
                        sem_id as int,
                        (row_pre.semaphore_alloc@[sem_id as int] + 1) as usize,
                    )
                    &&& sem1.queue() == sem0.queue()
                })
                &&& (sem0.count() <= 0 ==> {
                    &&& row.status == TaskStatus::BlockedOnSemaphore(sem_id)
                    &&& row.semaphore_need@ == row_pre.semaphore_need@.update(sem_id as int, 1usize)
                    &&& row.semaphore_alloc@ == row_pre.semaphore_alloc@
                    &&& sem1.queue() == sem0.queue().push(tid)
                })
            }
        },
{
    if p.deadlock_detect {
        let dl = deadlock_detect_semaphore(p, tid, sem_id);
        if dl {
            return DEADLOCK_ERR;
        }
    }
    let ghost pre = *p;
    proof {
        assert(pre.sem_slot_ok(sem_id as int));
        assert(pre.tasks@[tid as int].semaphore_need@.len() == pre.n_semaphores());
        assert(pre.tasks@[tid as int].semaphore_need@[sem_id as int]
            == crate::process::sem_need_expected(pre.tasks@[tid as int].status, sem_id as int));
        crate::process::lemma_sem_entry_le_total(pre.tasks@, tid as int, sem_id as int);
        crate::process::lemma_sem_total_nonneg(pre.tasks@, sem_id as int, pre.n_tasks());
        assert(pre.semaphore_list@[sem_id as int].unwrap().sid() == sem_id as int);
    }
    match &p.semaphore_list[sem_id] {
        Some(sem) => {
            sem.add_need(&mut p.tasks[tid]);
        },
        None => {
            proof {
                assert(false);
            }
        },
    }
    let blocked = match &mut p.semaphore_list[sem_id] {
        Some(sem) => sem.down(tid),
        None => {
            proof {
                assert(false);
            }
            false
        },
    };
    if blocked {
        p.tasks[tid].status = TaskStatus::BlockedOnSemaphore(sem_id);
    } else {
        proof {
            let semg = p.semaphore_list@[sem_id as int].unwrap();
            assert(semg.sid() == sem_id as int);
            assert(p.tasks@[tid as int].semaphore_need@[sem_id as int] >= 1);
        }
        match &p.semaphore_list[sem_id] {
            Some(sem) => {
                sem.need_into_alloc(&mut p.tasks[tid]);
            },
            None => {
                proof {
                    assert(false);
                }
            },
        }
    }
    proof {
        let row_pre = pre.tasks@[tid as int];
        let row = p.tasks@[tid as int];
        assert(row.semaphore_need@ =~= row_pre.semaphore_need@.update(
            sem_id as int,
            row.semaphore_need@[sem_id as int],
        ));
        assert(row.semaphore_alloc@ =~= row_pre.semaphore_alloc@.update(
            sem_id as int,
            row.semaphore_alloc@[sem_id as int],
        ));
        if !blocked {
            assert(row.semaphore_need@ =~= row_pre.semaphore_need@);
        }
        assert(p.tasks@ =~= pre.tasks@.update(tid as int, row));
        assert(p.semaphore_list@ =~= pre.semaphore_list@.update(
            sem_id as int,
            p.semaphore_list@[sem_id as int],
        ));
        lemma_sem_down_wf(&pre, p, tid as int, sem_id as int);
    }
    0
}

/// Invariant preservation for one `down` by `tid` on semaphore `sid`.
proof fn lemma_sem_down_wf(pre: &ProcessState, post: &ProcessState, tid: int, sid: int)
    requires
        pre.wf(),
        pre.task_live(tid),
        0 <= tid <= usize::MAX,
        0 <= sid <= usize::MAX,
        0 <= sid < pre.n_semaphores(),
        pre.semaphore_list@[sid] is Some,
        pre.tasks@[tid].status == TaskStatus::Runnable,
        post.n_tasks() == pre.n_tasks(),
        post.tasks@ == pre.tasks@.update(tid, post.tasks@[tid]),
        post.semaphore_list@ == pre.semaphore_list@.update(sid, post.semaphore_list@[sid]),
        post.mutex_list@ == pre.mutex_list@,
        post.condvar_list@ == pre.condvar_list@,
        post.semaphore_list@[sid] is Some,
        ({
            let row_pre = pre.tasks@[tid];
            let row = post.tasks@[tid];
            let sem0 = pre.semaphore_list@[sid].unwrap();
            let sem1 = post.semaphore_list@[sid].unwrap();
            &&& row.alive
            &&& row.mutex_need@ == row_pre.mutex_need@
            &&& row.mutex_alloc@ == row_pre.mutex_alloc@
            &&& sem1.sid() == sid
            &&& sem1.count() == sem0.count() - 1
            &&& sem1.initial() == sem0.initial()
            &&& sem1.ups() == sem0.ups()
            &&& sem1.downs() == sem0.downs() + 1
            &&& (sem0.count() > 0 ==> {
                &&& row.status == TaskStatus::Runnable
                &&& row.semaphore_need@ == row_pre.semaphore_need@
                &&& row.semaphore_alloc@ == row_pre.semaphore_alloc@.update(
                    sid,
                    (row_pre.semaphore_alloc@[sid] + 1) as usize,
                )
                &&& row_pre.semaphore_alloc@[sid] + 1 <= usize::MAX
                &&& sem1.queue() == sem0.queue()
            })
            &&& (sem0.count() <= 0 ==> {
                &&& row.status == TaskStatus::BlockedOnSemaphore(sid as usize)
                &&& row.semaphore_need@ == row_pre.semaphore_need@.update(sid, 1usize)
                &&& row.semaphore_alloc@ == row_pre.semaphore_alloc@
                &&& sem1.queue() == sem0.queue().push(tid as usize)
            })
        }),
    ensures
        post.wf(),
{
    let row_pre = pre.tasks@[tid];
    let row = post.tasks@[tid];
    let sem0 = pre.semaphore_list@[sid].unwrap();
    let sem1 = post.semaphore_list@[sid].unwrap();
    assert(pre.sem_slot_ok(sid));
    assert forall|t: int, mm: int|
        post.task_live(t) && 0 <= mm < post.n_mutexes() implies (#[trigger] post.tasks@[t].mutex_need@[mm])
        == crate::process::mutex_need_expected(post.tasks@[t].status, mm) by {
        if t == tid {
            assert(pre.tasks@[t].mutex_need@[mm] == crate::process::mutex_need_expected(
                row_pre.status,
                mm,
            ));
        } else {
            assert(pre.tasks@[t].mutex_need@[mm] == crate::process::mutex_need_expected(
                pre.tasks@[t].status,
                mm,
            ));
        }
    }
    assert forall|t: int, ss: int|
        post.task_live(t) && 0 <= ss < post.n_semaphores() implies (#[trigger] post.tasks@[t].semaphore_need@[ss])
        == crate::process::sem_need_expected(post.tasks@[t].status, ss) by {
        if t == tid {
            assert(pre.tasks@[t].semaphore_need@[ss] == crate::process::sem_need_expected(
                row_pre.status,
                ss,
            ));
        } else {
            assert(pre.tasks@[t].semaphore_need@[ss] == crate::process::sem_need_expected(
                pre.tasks@[t].status,
                ss,
            ));
        }
    }
    assert forall|t1: int, t2: int, m: int|
        post.task_live(t1) && post.task_live(t2) && t1 != t2 && 0 <= m
            < post.n_mutexes() implies !(post.holds_mutex(t1, m) && post.holds_mutex(t2, m)) by {
        assert(!(pre.holds_mutex(t1, m) && pre.holds_mutex(t2, m)));
    }
    assert forall|m: int| 0 <= m < post.n_mutexes() implies #[trigger] post.mutex_slot_ok(m) by {
        assert(pre.mutex_slot_ok(m));
        match post.mutex_list@[m] {
            Some(mx) => {
                if !mx.locked() {
                    assert forall|t: int|
                        post.task_live(t) implies (#[trigger] post.tasks@[t]).mutex_alloc@[m]
                        == 0 by {
                        assert(pre.task_live(t));
                        assert(pre.tasks@[t].mutex_alloc@[m] == 0);
                    }
                }
                assert forall|i: int| 0 <= i < mx.queue().len() implies {
                    let wq = (#[trigger] mx.queue()[i]) as int;
                    &&& post.task_live(wq)
                    &&& post.tasks@[wq].status == TaskStatus::BlockedOnMutex(m as usize)
                } by {
                    let wq = mx.queue()[i] as int;
                    assert(pre.task_live(wq));
                    assert(pre.tasks@[wq].status == TaskStatus::BlockedOnMutex(m as usize));
                    assert(wq != tid);
                }
            },
            None => {
                assert forall|t: int|
                    post.task_live(t) implies (#[trigger] post.tasks@[t]).mutex_alloc@[m]
                    == 0 by {
                    assert(pre.task_live(t));
                    assert(pre.tasks@[t].mutex_alloc@[m] == 0);
                }
            },
        }
    }
    assert forall|c: int| 0 <= c < post.n_condvars() implies #[trigger] post.condvar_slot_ok(c) by {
        assert(pre.condvar_slot_ok(c));
        match post.condvar_list@[c] {
            Some(cv) => {
                assert forall|i: int| 0 <= i < cv.queue().len() implies {
                    let wq = (#[trigger] cv.queue()[i]) as int;
                    &&& post.task_live(wq)
                    &&& post.tasks@[wq].status == TaskStatus::BlockedOnCondvar(c as usize)
                } by {
                    let wq = cv.queue()[i] as int;
                    assert(pre.task_live(wq));
                    assert(pre.tasks@[wq].status == TaskStatus::BlockedOnCondvar(c as usize));
                    assert(wq != tid);
                }
            },
            None => {},
        }
    }
    assert forall|s: int| 0 <= s < post.n_semaphores() implies #[trigger] post.sem_slot_ok(s) by {
        assert(pre.sem_slot_ok(s));
        if s == sid {
            crate::process::lemma_sem_total_update(pre.tasks@, tid, row, sid);
            assert forall|i: int| 0 <= i < sem1.queue().len() implies {
                let wq = (#[trigger] sem1.queue()[i]) as int;
                &&& post.task_live(wq)
                &&& post.tasks@[wq].status == TaskStatus::BlockedOnSemaphore(s as usize)
            } by {
                if i < sem0.queue().len() {
                    assert(sem1.queue()[i] == sem0.queue()[i]);
                    let wq = sem0.queue()[i] as int;
                    assert(pre.task_live(wq));
                    assert(pre.tasks@[wq].status == TaskStatus::BlockedOnSemaphore(s as usize));
                    assert(wq != tid);
                } else {
                    assert(sem0.count() <= 0);
                    assert(sem1.queue()[i] == tid as usize);
                }
            }
            assert forall|i1: int, i2: int|
                0 <= i1 < i2 < sem1.queue().len() implies #[trigger] sem1.queue()[i1]
                != #[trigger] sem1.queue()[i2] by {
                if i2 < sem0.queue().len() {
                    assert(sem0.queue()[i1] != sem0.queue()[i2]);
                } else {
                    assert(sem0.count() <= 0);
                    let w1 = sem0.queue()[i1] as int;
                    assert(pre.tasks@[w1].status == TaskStatus::BlockedOnSemaphore(s as usize));
                    assert(pre.tasks@[tid].status != TaskStatus::BlockedOnSemaphore(s as usize));
                }
            }
        } else {
            crate::process::lemma_sem_total_congruent(
                post.tasks@,
                pre.tasks@,
                s,
                post.tasks@.len() as int,
            );
            match post.semaphore_list@[s] {
                Some(sem) => {
                    assert forall|i: int| 0 <= i < sem.queue().len() implies {
                        let wq = (#[trigger] sem.queue()[i]) as int;
                        &&& post.task_live(wq)
                        &&& post.tasks@[wq].status == TaskStatus::BlockedOnSemaphore(s as usize)
                    } by {
                        let wq = sem.queue()[i] as int;
                        assert(pre.task_live(wq));
                        assert(pre.tasks@[wq].status == TaskStatus::BlockedOnSemaphore(
                            s as usize,
                        ));
                        assert(wq != tid);
                    }
                },
                None => {
                    assert forall|t: int|
                        post.task_live(t) implies (#[trigger] post.tasks@[t]).semaphore_alloc@[s]
                        == 0 by {
                        assert(pre.task_live(t));
                        assert(pre.tasks@[t].semaphore_alloc@[s] == 0);
                    }
                },
            }
        }
    }
}

/// Returns one unit of semaphore `sem_id` from task `tid`, which must hold
/// a unit (the accounting decrement of an `up` without one would underflow
/// and is caller misuse). If the pre-increment count was negative a waiter
/// exists: the queue head is popped, woken, and handed the unit directly,
/// its accounting moving from need to alloc.
pub fn sys_semaphore_up(p: &mut ProcessState, tid: usize, sem_id: usize) -> (r: isize)
    requires
        old(p).wf(),
        old(p).task_live(tid as int),
        (sem_id as int) < old(p).n_semaphores(),
        old(p).semaphore_list@[sem_id as int] is Some,
        old(p).tasks@[tid as int].status == TaskStatus::Runnable,
        old(p).tasks@[tid as int].semaphore_alloc@[sem_id as int] >= 1,
    ensures
        final(p).wf(),
        r == 0,
        final(p).deadlock_detect == old(p).deadlock_detect,
        final(p).mutex_list@ == old(p).mutex_list@,
        final(p).condvar_list@ == old(p).condvar_list@,
        final(p).n_tasks() == old(p).n_tasks(),
        final(p).semaphore_list@ == old(p).semaphore_list@.update(
            sem_id as int,
            final(p).semaphore_list@[sem_id as int],
        ),
        final(p).semaphore_list@[sem_id as int] is Some,
        ({
            let row_pre = old(p).tasks@[tid as int];
            let row = final(p).tasks@[tid as int];
            let sem0 = old(p).semaphore_list@[sem_id as int].unwrap();
            let sem1 = final(p).semaphore_list@[sem_id as int].unwrap();
            &&& row.alive
            &&& row.status == TaskStatus::Runnable
            &&& row.mutex_need@ == row_pre.mutex_need@
            &&& row.mutex_alloc@ == row_pre.mutex_alloc@
            &&& row.semaphore_need@ == row_pre.semaphore_need@
            &&& row.semaphore_alloc@ == row_pre.semaphore_alloc@.update(
                sem_id as int,
                (row_pre.semaphore_alloc@[sem_id as int] - 1) as usize,
            )
            &&& sem1.sid() == sem_id
            &&& sem1.count() == sem0.count() + 1
            &&& sem1.initial() == sem0.initial()
            &&& sem1.ups() == sem0.ups() + 1
            &&& sem1.downs() == sem0.downs()
            &&& (sem0.count() >= 0 ==> {
                &&& sem1.queue() == sem0.queue()
                &&& final(p).tasks@ == old(p).tasks@.update(tid as int, row)
            })
            &&& (sem0.count() < 0 ==> {
                let w = sem0.queue()[0] as int;
                let wrow_pre = old(p).tasks@[w];
                let wrow = final(p).tasks@[w];
                &&& sem1.queue() == sem0.queue().drop_first()
                &&& w != tid as int
                &&& wrow.alive
                &&& wrow.status == TaskStatus::Runnable
                &&& wrow.semaphore_need@ == wrow_pre.semaphore_need@.update(sem_id as int, 0usize)
                &&& wrow.semaphore_alloc@ == wrow_pre.semaphore_alloc@.update(
                    sem_id as int,
                    (wrow_pre.semaphore_alloc@[sem_id as int] + 1) as usize,
                )
                &&& wrow.mutex_need@ == wrow_pre.mutex_need@
                &&& wrow.mutex_alloc@ == wrow_pre.mutex_alloc@
                &&& final(p).tasks@ == old(p).tasks@.update(tid as int, row).update(w, wrow)
            })
        }),
{
    let ghost pre = *p;
    proof {
        assert(pre.sem_slot_ok(sem_id as int));
        assert(pre.tasks@[tid as int].semaphore_alloc@.len() == pre.n_semaphores());
        crate::process::lemma_sem_entry_le_total(pre.tasks@, tid as int, sem_id as int);
        let sem0 = pre.semaphore_list@[sem_id as int].unwrap();
        assert(sem0.sid() == sem_id as int);
        // A held unit keeps the count strictly below its machine bound.
        assert(sem0.count() < isize::MAX);
        assert(sem0.count() < 0 ==> sem0.queue().len() > 0);
    }
    match &p.semaphore_list[sem_id] {
        Some(sem) => {
            sem.release_alloc(&mut p.tasks[tid]);
        },
        None => {
            proof {
                assert(false);
            }
        },
    }
    let woken = match &mut p.semaphore_list[sem_id] {
        Some(sem) => sem.up(),
        None => {
            proof {
                assert(false);
            }
            None
        },
    };
    match woken {
        Some(w) => {
            proof {
                let sem0 = pre.semaphore_list@[sem_id as int].unwrap();
                assert(w == sem0.queue()[0]);
                assert(pre.task_live(w as int));
                assert(pre.tasks@[w as int].status == TaskStatus::BlockedOnSemaphore(sem_id));
                assert(w as int != tid as int);
                assert(pre.tasks@[w as int].semaphore_need@[sem_id as int]
                    == crate::process::sem_need_expected(
                    pre.tasks@[w as int].status,
                    sem_id as int,
                ));
                assert(pre.tasks@[w as int].semaphore_need@[sem_id as int] == 1);
                assert(pre.tasks@[w as int].semaphore_need@.len() == pre.n_semaphores());
                assert(p.tasks@[w as int] == pre.tasks@[w as int]);
                // The woken task's alloc entry stays within range: it is
                // bounded by the ledger total, which the caller's released
                // unit keeps below the initial count.
                crate::process::lemma_sem_entry_le_total(pre.tasks@, w as int, sem_id as int);
                crate::process::lemma_sem_total_nonneg(pre.tasks@, sem_id as int, pre.n_tasks());
                let semg = p.semaphore_list@[sem_id as int].unwrap();
                assert(semg.sid() == sem_id as int);
            }
            match &p.semaphore_list[sem_id] {
                Some(sem) => {
                    sem.need_into_alloc(&mut p.tasks[w]);
                },
                None => {
                    proof {
                        assert(false);
                    }
                },
            }
            p.tasks[w].status = TaskStatus::Runnable;
            proof {
                let wi = w as int;
                let row = p.tasks@[tid as int];
                let wrow = p.tasks@[wi];
                assert(row.semaphore_alloc@ =~= pre.tasks@[tid as int].semaphore_alloc@.update(
                    sem_id as int,
                    row.semaphore_alloc@[sem_id as int],
                ));
                assert(wrow.semaphore_need@ =~= pre.tasks@[wi].semaphore_need@.update(
                    sem_id as int,
                    0usize,
                ));
                assert(wrow.semaphore_alloc@ =~= pre.tasks@[wi].semaphore_alloc@.update(
                    sem_id as int,
                    wrow.semaphore_alloc@[sem_id as int],
                ));
                assert(p.tasks@ =~= pre.tasks@.update(tid as int, row).update(wi, wrow));
                assert(p.semaphore_list@ =~= pre.semaphore_list@.update(
                    sem_id as int,
                    p.semaphore_list@[sem_id as int],
                ));
                lemma_sem_up_wf(&pre, p, tid as int, sem_id as int);
            }
        },
        None => {
            proof {
                let row = p.tasks@[tid as int];
                assert(row.semaphore_alloc@ =~= pre.tasks@[tid as int].semaphore_alloc@.update(
                    sem_id as int,
                    row.semaphore_alloc@[sem_id as int],
                ));
                assert(p.tasks@ =~= pre.tasks@.update(tid as int, row));
                assert(p.semaphore_list@ =~= pre.semaphore_list@.update(
                    sem_id as int,
                    p.semaphore_list@[sem_id as int],
                ));
                lemma_sem_up_wf(&pre, p, tid as int, sem_id as int);
            }
        },
    }
    0
}

/// Invariant preservation for one `up` by `tid` on semaphore `sid`.
proof fn lemma_sem_up_wf(pre: &ProcessState, post: &ProcessState, tid: int, sid: int)
    requires
        pre.wf(),
        pre.task_live(tid),
        0 <= tid <= usize::MAX,
        0 <= sid <= usize::MAX,
        0 <= sid < pre.n_semaphores(),
        pre.semaphore_list@[sid] is Some,
        pre.tasks@[tid].status == TaskStatus::Runnable,
        pre.tasks@[tid].semaphore_alloc@[sid] >= 1,
        post.n_tasks() == pre.n_tasks(),
        post.semaphore_list@ == pre.semaphore_list@.update(sid, post.semaphore_list@[sid]),
        post.mutex_list@ == pre.mutex_list@,
        post.condvar_list@ == pre.condvar_list@,
        post.semaphore_list@[sid] is Some,
        ({
            let row_pre = pre.tasks@[tid];
            let row = post.tasks@[tid];
            let sem0 = pre.semaphore_list@[sid].unwrap();
            let sem1 = post.semaphore_list@[sid].unwrap();
            &&& row.alive
            &&& row.status == TaskStatus::Runnable
            &&& row.mutex_need@ == row_pre.mutex_need@
            &&& row.mutex_alloc@ == row_pre.mutex_alloc@
            &&& row.semaphore_need@ == row_pre.semaphore_need@
            &&& row.semaphore_alloc@ == row_pre.semaphore_alloc@.update(
                sid,
                (row_pre.semaphore_alloc@[sid] - 1) as usize,
            )
            &&& sem1.sid() == sid
            &&& sem1.count() == sem0.count() + 1
            &&& sem1.initial() == sem0.initial()
            &&& sem1.ups() == sem0.ups() + 1
            &&& sem1.downs() == sem0.downs()
            &&& (sem0.count() >= 0 ==> {
                &&& sem1.queue() == sem0.queue()
                &&& post.tasks@ == pre.tasks@.update(tid, row)
            })
            &&& (sem0.count() < 0 ==> {
                let w = sem0.queue()[0] as int;
                let wrow_pre = pre.tasks@[w];
                let wrow = post.tasks@[w];
                &&& sem1.queue() == sem0.queue().drop_first()
                &&& w != tid
                &&& wrow.alive
                &&& wrow.status == TaskStatus::Runnable
                &&& wrow.semaphore_need@ == wrow_pre.semaphore_need@.update(sid, 0usize)
                &&& wrow.semaphore_alloc@ == wrow_pre.semaphore_alloc@.update(
                    sid,
                    (wrow_pre.semaphore_alloc@[sid] + 1) as usize,
                )
                &&& wrow_pre.semaphore_alloc@[sid] + 1 <= usize::MAX
                &&& wrow.mutex_need@ == wrow_pre.mutex_need@
                &&& wrow.mutex_alloc@ == wrow_pre.mutex_alloc@
                &&& post.tasks@ == pre.tasks@.update(tid, row).update(w, wrow)
            })
        }),
    ensures
        post.wf(),
{
    let row_pre = pre.tasks@[tid];
    let row = post.tasks@[tid];
    let sem0 = pre.semaphore_list@[sid].unwrap();
    let sem1 = post.semaphore_list@[sid].unwrap();
    assert(pre.sem_slot_ok(sid));
    let handoff = sem0.count() < 0;
    let w: int = if handoff {
        sem0.queue()[0] as int
    } else {
        tid
    };
    if handoff {
        assert(sem0.queue().len() > 0);
        assert(pre.task_live(w));
        assert(pre.tasks@[w].status == TaskStatus::BlockedOnSemaphore(sid as usize));
    }
    assert forall|t: int, mm: int|
        post.task_live(t) && 0 <= mm < post.n_mutexes() implies (#[trigger] post.tasks@[t].mutex_need@[mm])
        == crate::process::mutex_need_expected(post.tasks@[t].status, mm) by {
        if t == tid {
            assert(pre.tasks@[t].mutex_need@[mm] == crate::process::mutex_need_expected(
                row_pre.status,
                mm,
            ));
        } else if handoff && t == w {
            assert(pre.tasks@[t].mutex_need@[mm] == crate::process::mutex_need_expected(
                pre.tasks@[w].status,
                mm,
            ));
        } else {
            assert(pre.tasks@[t].mutex_need@[mm] == crate::process::mutex_need_expected(
                pre.tasks@[t].status,
                mm,
            ));
        }
    }
    assert forall|t: int, ss: int|
        post.task_live(t) && 0 <= ss < post.n_semaphores() implies (#[trigger] post.tasks@[t].semaphore_need@[ss])
        == crate::process::sem_need_expected(post.tasks@[t].status, ss) by {
        if t == tid {
            assert(pre.tasks@[t].semaphore_need@[ss] == crate::process::sem_need_expected(
                row_pre.status,
                ss,
            ));
        } else if handoff && t == w {
            assert(pre.tasks@[t].semaphore_need@[ss] == crate::process::sem_need_expected(
                pre.tasks@[w].status,
                ss,
            ));
        } else {
            assert(pre.tasks@[t].semaphore_need@[ss] == crate::process::sem_need_expected(
                pre.tasks@[t].status,
                ss,
            ));
        }
    }
    assert forall|t1: int, t2: int, m: int|
        post.task_live(t1) && post.task_live(t2) && t1 != t2 && 0 <= m
            < post.n_mutexes() implies !(post.holds_mutex(t1, m) && post.holds_mutex(t2, m)) by {
        assert(!(pre.holds_mutex(t1, m) && pre.holds_mutex(t2, m)));
    }
    assert forall|m: int| 0 <= m < post.n_mutexes() implies #[trigger] post.mutex_slot_ok(m) by {
        assert(pre.mutex_slot_ok(m));
        match post.mutex_list@[m] {
            Some(mx) => {
                if !mx.locked() {
                    assert forall|t: int|
                        post.task_live(t) implies (#[trigger] post.tasks@[t]).mutex_alloc@[m]
                        == 0 by {
                        assert(pre.task_live(t));
                        assert(pre.tasks@[t].mutex_alloc@[m] == 0);
                    }
                }
                assert forall|i: int| 0 <= i < mx.queue().len() implies {
                    let wq = (#[trigger] mx.queue()[i]) as int;
                    &&& post.task_live(wq)
                    &&& post.tasks@[wq].status == TaskStatus::BlockedOnMutex(m as usize)
                } by {
                    let wq = mx.queue()[i] as int;
                    assert(pre.task_live(wq));
                    assert(pre.tasks@[wq].status == TaskStatus::BlockedOnMutex(m as usize));
                    assert(wq != tid);
                    assert(wq != w);
                }
            },
            None => {
                assert forall|t: int|
                    post.task_live(t) implies (#[trigger] post.tasks@[t]).mutex_alloc@[m]
                    == 0 by {
                    assert(pre.task_live(t));
                    assert(pre.tasks@[t].mutex_alloc@[m] == 0);
                }
            },
        }
    }
    assert forall|c: int| 0 <= c < post.n_condvars() implies #[trigger] post.condvar_slot_ok(c) by {
        assert(pre.condvar_slot_ok(c));
        match post.condvar_list@[c] {
            Some(cv) => {
                assert forall|i: int| 0 <= i < cv.queue().len() implies {
                    let wq = (#[trigger] cv.queue()[i]) as int;
                    &&& post.task_live(wq)
                    &&& post.tasks@[wq].status == TaskStatus::BlockedOnCondvar(c as usize)
                } by {
                    let wq = cv.queue()[i] as int;
                    assert(pre.task_live(wq));
                    assert(pre.tasks@[wq].status == TaskStatus::BlockedOnCondvar(c as usize));
                    assert(wq != tid);
                    assert(wq != w);
                }
            },
            None => {},
        }
    }
    assert forall|s: int| 0 <= s < post.n_semaphores() implies #[trigger] post.sem_slot_ok(s) by {
        assert(pre.sem_slot_ok(s));
        if s == sid {
            if handoff {
                let wrow = post.tasks@[w];
                crate::process::lemma_sem_total_update(pre.tasks@, tid, row, sid);
                crate::process::lemma_sem_total_update(pre.tasks@.update(tid, row), w, wrow, sid);
                assert(pre.tasks@.update(tid, row)[w] == pre.tasks@[w]);
                assert forall|i: int| 0 <= i < sem1.queue().len() implies {
                    let wq = (#[trigger] sem1.queue()[i]) as int;
                    &&& post.task_live(wq)
                    &&& post.tasks@[wq].status == TaskStatus::BlockedOnSemaphore(s as usize)
                } by {
                    assert(sem1.queue()[i] == sem0.queue()[i + 1]);
                    let wq = sem1.queue()[i] as int;
                    assert(pre.task_live(wq));
                    assert(pre.tasks@[wq].status == TaskStatus::BlockedOnSemaphore(s as usize));
                    assert(wq != tid);
                    assert(sem0.queue()[i + 1] != sem0.queue()[0]);
                    assert(wq != w);
                }
                assert forall|i1: int, i2: int|
                    0 <= i1 < i2 < sem1.queue().len() implies #[trigger] sem1.queue()[i1]
                    != #[trigger] sem1.queue()[i2] by {
                    assert(sem1.queue()[i1] == sem0.queue()[i1 + 1]);
                    assert(sem1.queue()[i2] == sem0.queue()[i2 + 1]);
                    assert(sem0.queue()[i1 + 1] != sem0.queue()[i2 + 1]);
                }
            } else {
                crate::process::lemma_sem_total_update(pre.tasks@, tid, row, sid);
                assert forall|i: int| 0 <= i < sem1.queue().len() implies {
                    let wq = (#[trigger] sem1.queue()[i]) as int;
                    &&& post.task_live(wq)
                    &&& post.tasks@[wq].status == TaskStatus::BlockedOnSemaphore(s as usize)
                } by {
                    let wq = sem0.queue()[i] as int;
                    assert(pre.task_live(wq));
                    assert(pre.tasks@[wq].status == TaskStatus::BlockedOnSemaphore(s as usize));
                    assert(wq != tid);
                }
            }
        } else {
            crate::process::lemma_sem_total_congruent(
                post.tasks@,
                pre.tasks@,
                s,
                post.tasks@.len() as int,
            );
            match post.semaphore_list@[s] {
                Some(sem) => {
                    assert forall|i: int| 0 <= i < sem.queue().len() implies {
                        let wq = (#[trigger] sem.queue()[i]) as int;
                        &&& post.task_live(wq)
                        &&& post.tasks@[wq].status == TaskStatus::BlockedOnSemaphore(s as usize)
                    } by {
                        let wq = sem.queue()[i] as int;
                        assert(pre.task_live(wq));
                        assert(pre.tasks@[wq].status == TaskStatus::BlockedOnSemaphore(
                            s as usize,
                        ));
                        assert(wq != tid);
                        assert(wq != w);
                    }
                },
                None => {
                    assert forall|t: int|
                        post.task_live(t) implies (#[trigger] post.tasks@[t]).semaphore_alloc@[s]
                        == 0 by {
                        assert(pre.task_live(t));
                        assert(pre.tasks@[t].semaphore_alloc@[s] == 0);
                    }
                },
            }
        }
    }
}

/// Signals condition variable `condvar_id`: pops and wakes exactly one
/// waiter if any is parked; a signal with an empty wait queue is a no-op
/// and is not buffered.
pub fn sys_condvar_signal(p: &mut ProcessState, condvar_id: usize) -> (r: isize)
    requires
        old(p).wf(),
        (condvar_id as int) < old(p).n_condvars(),
        old(p).condvar_list@[condvar_id as int] is Some,
    ensures
        final(p).wf(),
        r == 0,
        final(p).deadlock_detect == old(p).deadlock_detect,
        final(p).mutex_list@ == old(p).mutex_list@,
        final(p).semaphore_list@ == old(p).semaphore_list@,
        final(p).n_tasks() == old(p).n_tasks(),
        final(p).condvar_list@ == old(p).condvar_list@.update(
            condvar_id as int,
            final(p).condvar_list@[condvar_id as int],
        ),
        final(p).condvar_list@[condvar_id as int] is Some,
        ({
            let cv0 = old(p).condvar_list@[condvar_id as int].unwrap();
            let cv1 = final(p).condvar_list@[condvar_id as int].unwrap();
            &&& (cv0.queue().len() == 0 ==> {
                &&& cv1.queue() == cv0.queue()
                &&& final(p).tasks@ == old(p).tasks@
            })
            &&& (cv0.queue().len() > 0 ==> {
                let w = cv0.queue()[0] as int;
                let wrow_pre = old(p).tasks@[w];
                let wrow = final(p).tasks@[w];
                &&& cv1.queue() == cv0.queue().drop_first()
                &&& wrow.alive
                &&& wrow.status == TaskStatus::Runnable
                &&& wrow.mutex_need@ == wrow_pre.mutex_need@
                &&& wrow.mutex_alloc@ == wrow_pre.mutex_alloc@
                &&& wrow.semaphore_need@ == wrow_pre.semaphore_need@
                &&& wrow.semaphore_alloc@ == wrow_pre.semaphore_alloc@
                &&& final(p).tasks@ == old(p).tasks@.update(w, wrow)
            })
        }),
{
    let ghost pre = *p;
    let cv_count = p.condvar_list.len();
    proof {
        assert(pre.condvar_slot_ok(condvar_id as int));
        assert(pre.n_condvars() == cv_count);
    }
    let woken = match &mut p.condvar_list[condvar_id] {
        Some(cv) => cv.signal(),
        None => {
            proof {
                assert(false);
            }
            None
        },
    };
    match woken {
        Some(w) => {
            proof {
                let cv0 = pre.condvar_list@[condvar_id as int].unwrap();
                assert(w == cv0.queue()[0]);
                assert(pre.task_live(w as int));
                assert(pre.tasks@[w as int].status == TaskStatus::BlockedOnCondvar(condvar_id));
            }
            p.tasks[w].status = TaskStatus::Runnable;
        },
        None => {},
    }
    proof {
        if woken is Some {
            let wi = woken.unwrap() as int;
            assert(p.tasks@ =~= pre.tasks@.update(wi, p.tasks@[wi]));
        } else {
            assert(p.tasks@ =~= pre.tasks@);
        }
        assert(p.condvar_list@ =~= pre.condvar_list@.update(
            condvar_id as int,
            p.condvar_list@[condvar_id as int],
        ));
        lemma_condvar_signal_wf(&pre, p, condvar_id as int);
    }
    0
}

/// Invariant preservation for one signal on condition variable `cid`.
proof fn lemma_condvar_signal_wf(pre: &ProcessState, post: &ProcessState, cid: int)
    requires
        pre.wf(),
        0 <= cid <= usize::MAX,
        0 <= cid < pre.n_condvars(),
        pre.n_condvars() <= usize::MAX,
        pre.condvar_list@[cid] is Some,
        post.n_tasks() == pre.n_tasks(),
        post.mutex_list@ == pre.mutex_list@,
        post.semaphore_list@ == pre.semaphore_list@,
        post.condvar_list@ == pre.condvar_list@.update(cid, post.condvar_list@[cid]),
        post.condvar_list@[cid] is Some,
        ({
            let cv0 = pre.condvar_list@[cid].unwrap();
            let cv1 = post.condvar_list@[cid].unwrap();
            &&& (cv0.queue().len() == 0 ==> {
                &&& cv1.queue() == cv0.queue()
                &&& post.tasks@ == pre.tasks@
            })
            &&& (cv0.queue().len() > 0 ==> {
                let w = cv0.queue()[0] as int;
                let wrow_pre = pre.tasks@[w];
                let wrow = post.tasks@[w];
                &&& cv1.queue() == cv0.queue().drop_first()
                &&& wrow.alive
                &&& wrow.status == TaskStatus::Runnable
                &&& wrow.mutex_need@ == wrow_pre.mutex_need@
                &&& wrow.mutex_alloc@ == wrow_pre.mutex_alloc@
                &&& wrow.semaphore_need@ == wrow_pre.semaphore_need@
                &&& wrow.semaphore_alloc@ == wrow_pre.semaphore_alloc@
                &&& post.tasks@ == pre.tasks@.update(w, wrow)
            })
        }),
    ensures
        post.wf(),
{
    let cv0 = pre.condvar_list@[cid].unwrap();
    let cv1 = post.condvar_list@[cid].unwrap();
    assert(pre.condvar_slot_ok(cid));
    if cv0.queue().len() == 0 {
        lemma_wf_same_sync_state_cv(pre, post);
    } else {
        let w = cv0.queue()[0] as int;
        assert(pre.task_live(w));
        assert(pre.tasks@[w].status == TaskStatus::BlockedOnCondvar(cid as usize));
        assert forall|t: int, mm: int|
            post.task_live(t) && 0 <= mm < post.n_mutexes() implies (#[trigger] post.tasks@[t].mutex_need@[mm])
            == crate::process::mutex_need_expected(post.tasks@[t].status, mm) by {
            if t == w {
                assert(pre.tasks@[t].mutex_need@[mm] == crate::process::mutex_need_expected(
                    pre.tasks@[w].status,
                    mm,
                ));
            } else {
                assert(pre.tasks@[t].mutex_need@[mm] == crate::process::mutex_need_expected(
                    pre.tasks@[t].status,
                    mm,
                ));
            }
        }
        assert forall|t: int, ss: int|
            post.task_live(t) && 0 <= ss < post.n_semaphores() implies (#[trigger] post.tasks@[t].semaphore_need@[ss])
            == crate::process::sem_need_expected(post.tasks@[t].status, ss) by {
            if t == w {
                assert(pre.tasks@[t].semaphore_need@[ss] == crate::process::sem_need_expected(
                    pre.tasks@[w].status,
                    ss,
                ));
            } else {
                assert(pre.tasks@[t].semaphore_need@[ss] == crate::process::sem_need_expected(
                    pre.tasks@[t].status,
                    ss,
                ));
            }
        }
        assert forall|t1: int, t2: int, m: int|
            post.task_live(t1) && post.task_live(t2) && t1 != t2 && 0 <= m
                < post.n_mutexes() implies !(post.holds_mutex(t1, m) && post.holds_mutex(
            t2,
            m,
        )) by {
            assert(!(pre.holds_mutex(t1, m) && pre.holds_mutex(t2, m)));
        }
        assert forall|m: int| 0 <= m < post.n_mutexes() implies #[trigger] post.mutex_slot_ok(
            m,
        ) by {
            assert(pre.mutex_slot_ok(m));
            match post.mutex_list@[m] {
                Some(mx) => {
                    if !mx.locked() {
                        assert forall|t: int|
                            post.task_live(t) implies (#[trigger] post.tasks@[t]).mutex_alloc@[m]
                            == 0 by {
                            assert(pre.task_live(t));
                            assert(pre.tasks@[t].mutex_alloc@[m] == 0);
                        }
                    }
                    assert forall|i: int| 0 <= i < mx.queue().len() implies {
                        let wq = (#[trigger] mx.queue()[i]) as int;
                        &&& post.task_live(wq)
                        &&& post.tasks@[wq].status == TaskStatus::BlockedOnMutex(m as usize)
                    } by {
                        let wq = mx.queue()[i] as int;
                        assert(pre.task_live(wq));
                        assert(pre.tasks@[wq].status == TaskStatus::BlockedOnMutex(m as usize));
                        assert(wq != w);
                    }
                },
                None => {
                    assert forall|t: int|
                        post.task_live(t) implies (#[trigger] post.tasks@[t]).mutex_alloc@[m]
                        == 0 by {
                        assert(pre.task_live(t));
                        assert(pre.tasks@[t].mutex_alloc@[m] == 0);
                    }
                },
            }
        }
        assert forall|s: int| 0 <= s < post.n_semaphores() implies #[trigger] post.sem_slot_ok(
            s,
        ) by {
            assert(pre.sem_slot_ok(s));
            crate::process::lemma_sem_total_congruent(
                post.tasks@,
                pre.tasks@,
                s,
                post.tasks@.len() as int,
            );
            match post.semaphore_list@[s] {
                Some(sem) => {
                    assert forall|i: int| 0 <= i < sem.queue().len() implies {
                        let wq = (#[trigger] sem.queue()[i]) as int;
                        &&& post.task_live(wq)
                        &&& post.tasks@[wq].status == TaskStatus::BlockedOnSemaphore(s as usize)
                    } by {
                        let wq = sem.queue()[i] as int;
                        assert(pre.task_live(wq));
                        assert(pre.tasks@[wq].status == TaskStatus::BlockedOnSemaphore(
                            s as usize,
                        ));
                        assert(wq != w);
                    }
                },
                None => {},
            }
        }
        assert forall|c: int| 0 <= c < post.n_condvars() implies #[trigger] post.condvar_slot_ok(
            c,
        ) by {
            assert(pre.condvar_slot_ok(c));
            if c == cid {
                assert forall|i: int| 0 <= i < cv1.queue().len() implies {
                    let wq = (#[trigger] cv1.queue()[i]) as int;
                    &&& post.task_live(wq)
                    &&& post.tasks@[wq].status == TaskStatus::BlockedOnCondvar(c as usize)
                } by {
                    assert(cv1.queue()[i] == cv0.queue()[i + 1]);
                    let wq = cv1.queue()[i] as int;
                    assert(pre.task_live(wq));
                    assert(pre.tasks@[wq].status == TaskStatus::BlockedOnCondvar(c as usize));
                    assert(cv0.queue()[i + 1] != cv0.queue()[0]);
                    assert(wq != w);
                }
                assert forall|i1: int, i2: int|
                    0 <= i1 < i2 < cv1.queue().len() implies #[trigger] cv1.queue()[i1]
                    != #[trigger] cv1.queue()[i2] by {
                    assert(cv1.queue()[i1] == cv0.queue()[i1 + 1]);
                    assert(cv1.queue()[i2] == cv0.queue()[i2 + 1]);
                    assert(cv0.queue()[i1 + 1] != cv0.queue()[i2 + 1]);
                }
            } else {
                match post.condvar_list@[c] {
                    Some(cv) => {
                        assert forall|i: int| 0 <= i < cv.queue().len() implies {
                            let wq = (#[trigger] cv.queue()[i]) as int;
                            &&& post.task_live(wq)
                            &&& post.tasks@[wq].status == TaskStatus::BlockedOnCondvar(c as usize)
                        } by {
                            let wq = cv.queue()[i] as int;
                            assert(pre.task_live(wq));
                            assert(pre.tasks@[wq].status == TaskStatus::BlockedOnCondvar(
                                c as usize,
                            ));
                            assert(wq != w);
                        }
                    },
                    None => {},
                }
            }
        }
    }
}

/// As [`lemma_wf_same_sync_state`], but allowing the condition-variable
/// registry to differ in slots whose queues are unchanged or equal.
proof fn lemma_wf_same_sync_state_cv(pre: &ProcessState, post: &ProcessState)
    requires
        pre.wf(),
        post.tasks@ == pre.tasks@,
        post.mutex_list@ == pre.mutex_list@,
        post.semaphore_list@ == pre.semaphore_list@,
        post.condvar_list@.len() == pre.condvar_list@.len(),
        forall|c: int|
            0 <= c < pre.n_condvars() ==> match (#[trigger] post.condvar_list@[c], pre.condvar_list@[c]) {
                (Some(cv1), Some(cv0)) => cv1.queue() == cv0.queue(),
                (None, None) => true,
                _ => false,
            },
    ensures
        post.wf(),
{
    assert forall|s: int| 0 <= s < post.n_semaphores() implies #[trigger] post.sem_slot_ok(s) by {
        assert(pre.sem_slot_ok(s));
        crate::process::lemma_sem_total_congruent(
            post.tasks@,
            pre.tasks@,
            s,
            post.tasks@.len() as int,
        );
    }
    assert forall|m: int| 0 <= m < post.n_mutexes() implies #[trigger] post.mutex_slot_ok(m) by {
        assert(pre.mutex_slot_ok(m));
    }
    assert forall|t: int|
        post.task_live(t) implies match (#[trigger] post.tasks@[t]).status {
        TaskStatus::Runnable => true,
        TaskStatus::Sleeping => true,
        TaskStatus::SpinningOn(m) => {
            &&& m < post.n_mutexes()
            &&& match post.mutex_list@[m as int] {
                Some(mx) => !mx.blocks(),
                None => false,
            }
            &&& post.tasks@[t].mutex_alloc@[m as int] == 0
        },
        TaskStatus::BlockedOnMutex(m) => {
            &&& m < post.n_mutexes()
            &&& match post.mutex_list@[m as int] {
                Some(mx) => mx.blocks(),
                None => false,
            }
            &&& post.tasks@[t].mutex_alloc@[m as int] == 0
        },
        TaskStatus::BlockedOnSemaphore(s) => {
            &&& s < post.n_semaphores()
            &&& post.semaphore_list@[s as int] is Some
        },
        TaskStatus::BlockedOnCondvar(c) => {
            &&& c < post.n_condvars()
            &&& post.condvar_list@[c as int] is Some
        },
    } by {
        assert(pre.task_live(t));
    }
    assert forall|c: int| 0 <= c < post.n_condvars() implies #[trigger] post.condvar_slot_ok(c) by {
        assert(pre.condvar_slot_ok(c));
    }
    assert forall|t1: int, t2: int, m: int|
        post.task_live(t1) && post.task_live(t2) && t1 != t2 && 0 <= m
            < post.n_mutexes() implies !(post.holds_mutex(t1, m) && post.holds_mutex(t2, m)) by {
        assert(!(pre.holds_mutex(t1, m) && pre.holds_mutex(t2, m)));
    }
}

/// The wait call on condition variable `condvar_id` with the caller's held
/// mutex `mutex_id`: releases the mutex (handing it to its queue head if
/// one is parked), appends the caller to the condition variable's wait
/// queue, and suspends it. The mutex is *not* re-acquired when the task is
/// later signalled: the caller must lock it again itself.
pub fn sys_condvar_wait(p: &mut ProcessState, tid: usize, condvar_id: usize, mutex_id: usize) -> (r:
    isize)
    requires
        old(p).wf(),
        old(p).task_live(tid as int),
        old(p).tasks@[tid as int].status == TaskStatus::Runnable,
        (condvar_id as int) < old(p).n_condvars(),
        old(p).condvar_list@[condvar_id as int] is Some,
        (mutex_id as int) < old(p).n_mutexes(),
        old(p).mutex_list@[mutex_id as int] is Some,
        old(p).tasks@[tid as int].mutex_alloc@[mutex_id as int] >= 1,
    ensures
        final(p).wf(),
        r == 0,
        final(p).deadlock_detect == old(p).deadlock_detect,
        final(p).semaphore_list@ == old(p).semaphore_list@,
        final(p).n_tasks() == old(p).n_tasks(),
        final(p).mutex_list@ == old(p).mutex_list@.update(
            mutex_id as int,
            final(p).mutex_list@[mutex_id as int],
        ),
        final(p).condvar_list@ == old(p).condvar_list@.update(
            condvar_id as int,
            final(p).condvar_list@[condvar_id as int],
        ),
        final(p).mutex_list@[mutex_id as int] is Some,
        final(p).condvar_list@[condvar_id as int] is Some,
        ({
            let row_pre = old(p).tasks@[tid as int];
            let row = final(p).tasks@[tid as int];
            let mx0 = old(p).mutex_list@[mutex_id as int].unwrap();
            let mx1 = final(p).mutex_list@[mutex_id as int].unwrap();
            let cv0 = old(p).condvar_list@[condvar_id as int].unwrap();
            let cv1 = final(p).condvar_list@[condvar_id as int].unwrap();
            &&& row.alive
            &&& row.status == TaskStatus::BlockedOnCondvar(condvar_id)
            &&& row.mutex_need@ == row_pre.mutex_need@
            &&& row.mutex_alloc@ == row_pre.mutex_alloc@.update(mutex_id as int, 0usize)
            &&& row.semaphore_need@ == row_pre.semaphore_need@
            &&& row.semaphore_alloc@ == row_pre.semaphore_alloc@
            &&& cv1.queue() == cv0.queue().push(tid)
            &&& mx1.id() == mutex_id
            &&& mx1.blocks() == mx0.blocks()
            &&& (mx0.queue().len() == 0 ==> {
                &&& !mx1.locked()
                &&& mx1.queue() == mx0.queue()
                &&& final(p).tasks@ == old(p).tasks@.update(tid as int, row)
            })
            &&& (mx0.queue().len() > 0 ==> {
                let w = mx0.queue()[0] as int;
                let wrow_pre = old(p).tasks@[w];
                let wrow = final(p).tasks@[w];
                &&& mx1.locked()
                &&& mx1.queue() == mx0.queue().drop_first()
                &&& w != tid as int
                &&& wrow.alive
                &&& wrow.status == TaskStatus::Runnable
                &&& wrow.mutex_need@ == wrow_pre.mutex_need@.update(mutex_id as int, 0usize)
                &&& wrow.mutex_alloc@ == wrow_pre.mutex_alloc@.update(mutex_id as int, 1usize)
                &&& wrow.semaphore_need@ == wrow_pre.semaphore_need@
                &&& wrow.semaphore_alloc@ == wrow_pre.semaphore_alloc@
                &&& final(p).tasks@ == old(p).tasks@.update(tid as int, row).update(w, wrow)
            })
        }),
{
    let r1 = sys_mutex_unlock(p, tid, mutex_id);
    let ghost mid_state = *p;
    let cv_count = p.condvar_list.len();
    proof {
        assert(mid_state.n_condvars() == cv_count);
        assert(mid_state.condvar_slot_ok(condvar_id as int));
    }
    match &mut p.condvar_list[condvar_id] {
        Some(cv) => {
            cv.wait(tid);
        },
        None => {
            proof {
                assert(false);
            }
        },
    }
    p.tasks[tid].status = TaskStatus::BlockedOnCondvar(condvar_id);
    proof {
        let row = p.tasks@[tid as int];
        assert(p.tasks@ =~= mid_state.tasks@.update(tid as int, row));
        assert(p.condvar_list@ =~= mid_state.condvar_list@.update(
            condvar_id as int,
            p.condvar_list@[condvar_id as int],
        ));
        lemma_condvar_block_wf(&mid_state, p, tid as int, condvar_id as int);
        let mx0 = old(p).mutex_list@[mutex_id as int].unwrap();
        if mx0.queue().len() == 0 {
            assert(p.tasks@ =~= old(p).tasks@.update(tid as int, row));
        } else {
            let w = mx0.queue()[0] as int;
            let wrow = p.tasks@[w];
            assert(old(p).mutex_slot_ok(mutex_id as int));
            assert(old(p).task_live(w));
            assert(w != tid as int);
            assert(mid_state.tasks@ == old(p).tasks@.update(
                tid as int,
                mid_state.tasks@[tid as int],
            ).update(w, mid_state.tasks@[w]));
            assert(wrow == mid_state.tasks@[w]);
            assert(p.tasks@ =~= old(p).tasks@.update(tid as int, row).update(w, wrow));
        }
        assert(p.condvar_list@ =~= old(p).condvar_list@.update(
            condvar_id as int,
            p.condvar_list@[condvar_id as int],
        ));
    }
    0
}

/// Invariant preservation for parking a runnable task on a condition
/// variable: its status changes, no accounting entry moves.
proof fn lemma_condvar_block_wf(pre: &ProcessState, post: &ProcessState, tid: int, cid: int)
    requires
        pre.wf(),
        pre.task_live(tid),
        pre.tasks@[tid].status == TaskStatus::Runnable,
        0 <= tid <= usize::MAX,
        0 <= cid <= usize::MAX,
        0 <= cid < pre.n_condvars(),
        pre.condvar_list@[cid] is Some,
        post.n_tasks() == pre.n_tasks(),
        post.tasks@ == pre.tasks@.update(tid, post.tasks@[tid]),
        post.mutex_list@ == pre.mutex_list@,
        post.semaphore_list@ == pre.semaphore_list@,
        post.condvar_list@ == pre.condvar_list@.update(cid, post.condvar_list@[cid]),
        post.condvar_list@[cid] is Some,
        ({
            let row_pre = pre.tasks@[tid];
            let row = post.tasks@[tid];
            let cv0 = pre.condvar_list@[cid].unwrap();
            let cv1 = post.condvar_list@[cid].unwrap();
            &&& row.alive
            &&& row.status == TaskStatus::BlockedOnCondvar(cid as usize)
            &&& row.mutex_need@ == row_pre.mutex_need@
            &&& row.mutex_alloc@ == row_pre.mutex_alloc@
            &&& row.semaphore_need@ == row_pre.semaphore_need@
            &&& row.semaphore_alloc@ == row_pre.semaphore_alloc@
            &&& cv1.queue() == cv0.queue().push(tid as usize)
        }),
    ensures
        post.wf(),
{
    let row_pre = pre.tasks@[tid];
    let row = post.tasks@[tid];
    let cv0 = pre.condvar_list@[cid].unwrap();
    let cv1 = post.condvar_list@[cid].unwrap();
    assert(pre.condvar_slot_ok(cid));
    assert forall|t: int, mm: int|
        post.task_live(t) && 0 <= mm < post.n_mutexes() implies (#[trigger] post.tasks@[t].mutex_need@[mm])
        == crate::process::mutex_need_expected(post.tasks@[t].status, mm) by {
        if t == tid {
            assert(pre.tasks@[t].mutex_need@[mm] == crate::process::mutex_need_expected(
                row_pre.status,
                mm,
            ));
        } else {
            assert(pre.tasks@[t].mutex_need@[mm] == crate::process::mutex_need_expected(
                pre.tasks@[t].status,
                mm,
            ));
        }
    }
    assert forall|t: int, ss: int|
        post.task_live(t) && 0 <= ss < post.n_semaphores() implies (#[trigger] post.tasks@[t].semaphore_need@[ss])
        == crate::process::sem_need_expected(post.tasks@[t].status, ss) by {
        if t == tid {
            assert(pre.tasks@[t].semaphore_need@[ss] == crate::process::sem_need_expected(
                row_pre.status,
                ss,
            ));
        } else {
            assert(pre.tasks@[t].semaphore_need@[ss] == crate::process::sem_need_expected(
                pre.tasks@[t].status,
                ss,
            ));
        }
    }
    assert forall|t1: int, t2: int, m: int|
        post.task_live(t1) && post.task_live(t2) && t1 != t2 && 0 <= m
            < post.n_mutexes() implies !(post.holds_mutex(t1, m) && post.holds_mutex(t2, m)) by {
        assert(!(pre.holds_mutex(t1, m) && pre.holds_mutex(t2, m)));
    }
    assert forall|m: int| 0 <= m < post.n_mutexes() implies #[trigger] post.mutex_slot_ok(m) by {
        assert(pre.mutex_slot_ok(m));
        match post.mutex_list@[m] {
            Some(mx) => {
                if !mx.locked() {
                    assert forall|t: int|
                        post.task_live(t) implies (#[trigger] post.tasks@[t]).mutex_alloc@[m]
                        == 0 by {
                        assert(pre.task_live(t));
                        assert(pre.tasks@[t].mutex_alloc@[m] == 0);
                    }
                }
                assert forall|i: int| 0 <= i < mx.queue().len() implies {
                    let wq = (#[trigger] mx.queue()[i]) as int;
                    &&& post.task_live(wq)
                    &&& post.tasks@[wq].status == TaskStatus::BlockedOnMutex(m as usize)
                } by {
                    let wq = mx.queue()[i] as int;
                    assert(pre.task_live(wq));
                    assert(pre.tasks@[wq].status == TaskStatus::BlockedOnMutex(m as usize));
                    assert(wq != tid);
                }
            },
            None => {
                assert forall|t: int|
                    post.task_live(t) implies (#[trigger] post.tasks@[t]).mutex_alloc@[m]
                    == 0 by {
                    assert(pre.task_live(t));
                    assert(pre.tasks@[t].mutex_alloc@[m] == 0);
                }
            },
        }
    }
    assert forall|s: int| 0 <= s < post.n_semaphores() implies #[trigger] post.sem_slot_ok(s) by {
        assert(pre.sem_slot_ok(s));
        crate::process::lemma_sem_total_congruent(
            post.tasks@,
            pre.tasks@,
            s,
            post.tasks@.len() as int,
        );
        match post.semaphore_list@[s] {
            Some(sem) => {
                assert forall|i: int| 0 <= i < sem.queue().len() implies {
                    let wq = (#[trigger] sem.queue()[i]) as int;
                    &&& post.task_live(wq)
                    &&& post.tasks@[wq].status == TaskStatus::BlockedOnSemaphore(s as usize)
                } by {
                    let wq = sem.queue()[i] as int;
                    assert(pre.task_live(wq));
                    assert(pre.tasks@[wq].status == TaskStatus::BlockedOnSemaphore(s as usize));
                    assert(wq != tid);
                }
            },
            None => {},
        }
    }
    assert forall|c: int| 0 <= c < post.n_condvars() implies #[trigger] post.condvar_slot_ok(c) by {
        assert(pre.condvar_slot_ok(c));
        if c == cid {
            assert forall|i: int| 0 <= i < cv1.queue().len() implies {
                let wq = (#[trigger] cv1.queue()[i]) as int;
                &&& post.task_live(wq)
                &&& post.tasks@[wq].status == TaskStatus::BlockedOnCondvar(c as usize)
            } by {
                if i < cv0.queue().len() {
                    assert(cv1.queue()[i] == cv0.queue()[i]);
                    let wq = cv0.queue()[i] as int;
                    assert(pre.task_live(wq));
                    assert(pre.tasks@[wq].status == TaskStatus::BlockedOnCondvar(c as usize));
                    assert(wq != tid);
                } else {
                    assert(cv1.queue()[i] == tid as usize);
                }
            }
            assert forall|i1: int, i2: int|
                0 <= i1 < i2 < cv1.queue().len() implies #[trigger] cv1.queue()[i1]
                != #[trigger] cv1.queue()[i2] by {
                if i2 < cv0.queue().len() {
                    assert(cv0.queue()[i1] != cv0.queue()[i2]);
                } else {
                    let w1 = cv0.queue()[i1] as int;
                    assert(pre.tasks@[w1].status == TaskStatus::BlockedOnCondvar(c as usize));
                    assert(pre.tasks@[tid].status != TaskStatus::BlockedOnCondvar(c as usize));
                }
            }
        } else {
            match post.condvar_list@[c] {
                Some(cv) => {
                    assert forall|i: int| 0 <= i < cv.queue().len() implies {
                        let wq = (#[trigger] cv.queue()[i]) as int;
                        &&& post.task_live(wq)
                        &&& post.tasks@[wq].status == TaskStatus::BlockedOnCondvar(c as usize)
                    } by {
                        let wq = cv.queue()[i] as int;
                        assert(pre.task_live(wq));
                        assert(pre.tasks@[wq].status == TaskStatus::BlockedOnCondvar(c as usize));
                        assert(wq != tid);
                    }
                },
                None => {},
            }
        }
    }
}

} // verus!
