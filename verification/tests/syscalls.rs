use sync_core::mutex::Mutex;
use sync_core::mutex::MutexInstance;
use sync_core::process::ProcessState;
use sync_core::syscall::deadlock_detect_mutex;
use sync_core::syscall::deadlock_detect_semaphore;
use sync_core::syscall::sys_condvar_create;
use sync_core::syscall::sys_condvar_signal;
use sync_core::syscall::sys_condvar_wait;
use sync_core::syscall::sys_enable_deadlock_detect;
use sync_core::syscall::sys_mutex_create;
use sync_core::syscall::sys_mutex_lock;
use sync_core::syscall::sys_mutex_unlock;
use sync_core::syscall::sys_semaphore_create;
use sync_core::syscall::sys_semaphore_down;
use sync_core::syscall::sys_semaphore_up;
use sync_core::syscall::sys_sleep;
use sync_core::syscall::timer_wakeup;
use sync_core::syscall::DEADLOCK_ERR;
use sync_core::task::TaskStatus;

fn mutex_probe(p: &ProcessState, id: usize) -> usize {
    match p.mutex_list[id].as_ref().unwrap() {
        MutexInstance::Spin(m) => m.test(),
        MutexInstance::Blocking(m) => m.test(),
    }
}

#[test]
fn blocking_mutex_end_to_end() {
    // Task A locks, task B blocks, A unlocks: B is woken owning the lock,
    // A's alloc entry is 0 and B's is 1.
    let mut p = ProcessState::new();
    let a = p.spawn_task();
    let b = p.spawn_task();
    assert_eq!(sys_mutex_create(&mut p, true), 0);
    assert_eq!(sys_mutex_lock(&mut p, a, 0), 0);
    assert_eq!(p.tasks[a].mutex_alloc[0], 1);
    assert_eq!(sys_mutex_lock(&mut p, b, 0), 0);
    assert_eq!(p.tasks[b].status, TaskStatus::BlockedOnMutex(0));
    assert_eq!(p.tasks[b].mutex_need[0], 1);
    assert_eq!(sys_mutex_unlock(&mut p, a, 0), 0);
    assert_eq!(p.tasks[a].mutex_alloc[0], 0);
    assert_eq!(p.tasks[b].mutex_alloc[0], 1);
    assert_eq!(p.tasks[b].mutex_need[0], 0);
    assert_eq!(p.tasks[b].status, TaskStatus::Runnable);
    // Direct handoff: the lock never appeared free in between.
    assert_eq!(mutex_probe(&p, 0), 0);
    assert_eq!(sys_mutex_unlock(&mut p, b, 0), 0);
    assert_eq!(mutex_probe(&p, 0), 1);
}

#[test]
fn spin_mutex_yields_and_retries() {
    let mut p = ProcessState::new();
    let a = p.spawn_task();
    let b = p.spawn_task();
    assert_eq!(sys_mutex_create(&mut p, false), 0);
    assert_eq!(sys_mutex_lock(&mut p, a, 0), 0);
    assert_eq!(sys_mutex_lock(&mut p, b, 0), 0);
    // B spins: its request is recorded but it is not parked on a queue.
    assert_eq!(p.tasks[b].status, TaskStatus::SpinningOn(0));
    assert_eq!(p.tasks[b].mutex_need[0], 1);
    // A retry while the lock is still held records no second need.
    assert_eq!(sys_mutex_lock(&mut p, b, 0), 0);
    assert_eq!(p.tasks[b].mutex_need[0], 1);
    assert_eq!(sys_mutex_unlock(&mut p, a, 0), 0);
    assert_eq!(mutex_probe(&p, 0), 1);
    // The next retry claims the now-free lock.
    assert_eq!(sys_mutex_lock(&mut p, b, 0), 0);
    assert_eq!(p.tasks[b].status, TaskStatus::Runnable);
    assert_eq!(p.tasks[b].mutex_alloc[0], 1);
}

#[test]
fn semaphore_end_to_end() {
    // Semaphore with one unit: the first down succeeds at once, the second
    // parks; the first up pops and wakes the parked task, handing the unit
    // over.
    let mut p = ProcessState::new();
    let a = p.spawn_task();
    let b = p.spawn_task();
    assert_eq!(sys_semaphore_create(&mut p, 1), 0);
    assert_eq!(sys_semaphore_down(&mut p, a, 0), 0);
    assert_eq!(p.semaphore_list[0].as_ref().unwrap().test(), 0);
    assert_eq!(p.tasks[a].semaphore_alloc[0], 1);
    assert_eq!(sys_semaphore_down(&mut p, b, 0), 0);
    assert_eq!(p.semaphore_list[0].as_ref().unwrap().test(), -1);
    assert_eq!(p.tasks[b].status, TaskStatus::BlockedOnSemaphore(0));
    assert_eq!(sys_semaphore_up(&mut p, a, 0), 0);
    assert_eq!(p.semaphore_list[0].as_ref().unwrap().test(), 0);
    assert_eq!(p.tasks[a].semaphore_alloc[0], 0);
    assert_eq!(p.tasks[b].semaphore_alloc[0], 1);
    assert_eq!(p.tasks[b].status, TaskStatus::Runnable);
}

#[test]
fn deadlock_detection_end_to_end() {
    // A holds mutex 0 and requests mutex 1; B holds mutex 1 and requests
    // mutex 0: B's lock call reports the predicted deadlock and B is not
    // blocked.
    let mut p = ProcessState::new();
    let a = p.spawn_task();
    let b = p.spawn_task();
    assert_eq!(sys_enable_deadlock_detect(&mut p, 1), 0);
    assert_eq!(sys_mutex_create(&mut p, true), 0);
    assert_eq!(sys_mutex_create(&mut p, true), 1);
    assert_eq!(sys_mutex_lock(&mut p, a, 0), 0);
    assert_eq!(sys_mutex_lock(&mut p, b, 1), 0);
    // A's request for mutex 1 is still safe: B could finish and release.
    assert_eq!(sys_mutex_lock(&mut p, a, 1), 0);
    assert_eq!(p.tasks[a].status, TaskStatus::BlockedOnMutex(1));
    // B's request for mutex 0 closes the cycle.
    assert_eq!(sys_mutex_lock(&mut p, b, 0), DEADLOCK_ERR);
    assert_eq!(p.tasks[b].status, TaskStatus::Runnable);
    assert_eq!(p.tasks[b].mutex_need[0], 0);
}

#[test]
fn deadlock_error_value() {
    assert_eq!(DEADLOCK_ERR, -0xDEAD);
    assert_eq!(DEADLOCK_ERR, -57005);
}

#[test]
fn semaphore_deadlock_detection() {
    // The same cycle built from one-unit semaphores.
    let mut p = ProcessState::new();
    let a = p.spawn_task();
    let b = p.spawn_task();
    assert_eq!(sys_enable_deadlock_detect(&mut p, 1), 0);
    assert_eq!(sys_semaphore_create(&mut p, 1), 0);
    assert_eq!(sys_semaphore_create(&mut p, 1), 1);
    assert_eq!(sys_semaphore_down(&mut p, a, 0), 0);
    assert_eq!(sys_semaphore_down(&mut p, b, 1), 0);
    assert_eq!(sys_semaphore_down(&mut p, a, 1), 0);
    assert_eq!(p.tasks[a].status, TaskStatus::BlockedOnSemaphore(1));
    assert_eq!(sys_semaphore_down(&mut p, b, 0), DEADLOCK_ERR);
    assert_eq!(p.tasks[b].status, TaskStatus::Runnable);
}

#[test]
fn detectors_on_safe_states() {
    let mut p = ProcessState::new();
    let a = p.spawn_task();
    let b = p.spawn_task();
    assert_eq!(sys_mutex_create(&mut p, true), 0);
    assert_eq!(sys_semaphore_create(&mut p, 2), 0);
    assert_eq!(sys_mutex_lock(&mut p, a, 0), 0);
    assert_eq!(sys_semaphore_down(&mut p, a, 0), 0);
    // Both requests could still be granted in some finishing order.
    assert!(!deadlock_detect_mutex(&p, b, 0));
    assert!(!deadlock_detect_semaphore(&p, b, 0));
}

#[test]
fn condvar_end_to_end() {
    // A signal with an empty wait queue is a no-op; a subsequent wait
    // still blocks normally.
    let mut p = ProcessState::new();
    let a = p.spawn_task();
    assert_eq!(sys_condvar_create(&mut p), 0);
    assert_eq!(sys_mutex_create(&mut p, true), 0);
    assert_eq!(sys_condvar_signal(&mut p, 0), 0);
    assert_eq!(p.tasks[a].status, TaskStatus::Runnable);
    assert_eq!(sys_mutex_lock(&mut p, a, 0), 0);
    assert_eq!(sys_condvar_wait(&mut p, a, 0, 0), 0);
    assert_eq!(p.tasks[a].status, TaskStatus::BlockedOnCondvar(0));
    // Waiting released the mutex; it is not re-acquired by the signal.
    assert_eq!(mutex_probe(&p, 0), 1);
    assert_eq!(p.tasks[a].mutex_alloc[0], 0);
    assert_eq!(sys_condvar_signal(&mut p, 0), 0);
    assert_eq!(p.tasks[a].status, TaskStatus::Runnable);
    assert_eq!(p.tasks[a].mutex_alloc[0], 0);
}

#[test]
fn condvar_wait_hands_mutex_to_waiter() {
    let mut p = ProcessState::new();
    let a = p.spawn_task();
    let b = p.spawn_task();
    assert_eq!(sys_condvar_create(&mut p), 0);
    assert_eq!(sys_mutex_create(&mut p, true), 0);
    assert_eq!(sys_mutex_lock(&mut p, a, 0), 0);
    assert_eq!(sys_mutex_lock(&mut p, b, 0), 0);
    // A's wait releases the mutex straight into B's hands.
    assert_eq!(sys_condvar_wait(&mut p, a, 0, 0), 0);
    assert_eq!(p.tasks[b].status, TaskStatus::Runnable);
    assert_eq!(p.tasks[b].mutex_alloc[0], 1);
    assert_eq!(p.tasks[a].status, TaskStatus::BlockedOnCondvar(0));
}

#[test]
fn enable_flag_validation() {
    let mut p = ProcessState::new();
    assert_eq!(sys_enable_deadlock_detect(&mut p, 1), 0);
    assert!(p.deadlock_detect);
    assert_eq!(sys_enable_deadlock_detect(&mut p, 7), -1);
    assert!(p.deadlock_detect);
    assert_eq!(sys_enable_deadlock_detect(&mut p, 0), 0);
    assert!(!p.deadlock_detect);
}

#[test]
fn sleep_parks_until_timer() {
    let mut p = ProcessState::new();
    let a = p.spawn_task();
    let (r, expire) = sys_sleep(&mut p, a, 1000, 250);
    assert_eq!(r, 0);
    assert_eq!(expire, 1250);
    assert_eq!(p.tasks[a].status, TaskStatus::Sleeping);
    timer_wakeup(&mut p, a);
    assert_eq!(p.tasks[a].status, TaskStatus::Runnable);
}

#[test]
fn exited_task_counts_as_finished() {
    let mut p = ProcessState::new();
    let a = p.spawn_task();
    let b = p.spawn_task();
    p.exit_task(a);
    assert!(!p.tasks[a].alive);
    assert_eq!(sys_mutex_create(&mut p, true), 0);
    assert_eq!(sys_mutex_create(&mut p, true), 1);
    assert_eq!(p.tasks[a].mutex_need.len(), 2);
    assert_eq!(sys_mutex_lock(&mut p, b, 0), 0);
    // The dead slot is treated as already finished by the detector: were
    // it not, no pass could ever finish it and every check would report a
    // deadlock.
    assert!(!deadlock_detect_mutex(&p, b, 1));
}

#[test]
fn fifo_wakeup_order_on_one_primitive() {
    // Three tasks block in order on one semaphore; they are woken in
    // exactly that order.
    let mut p = ProcessState::new();
    let owner = p.spawn_task();
    let t1 = p.spawn_task();
    let t2 = p.spawn_task();
    let t3 = p.spawn_task();
    assert_eq!(sys_semaphore_create(&mut p, 1), 0);
    assert_eq!(sys_semaphore_down(&mut p, owner, 0), 0);
    assert_eq!(sys_semaphore_down(&mut p, t1, 0), 0);
    assert_eq!(sys_semaphore_down(&mut p, t2, 0), 0);
    assert_eq!(sys_semaphore_down(&mut p, t3, 0), 0);
    assert_eq!(sys_semaphore_up(&mut p, owner, 0), 0);
    assert_eq!(p.tasks[t1].status, TaskStatus::Runnable);
    assert_eq!(p.tasks[t2].status, TaskStatus::BlockedOnSemaphore(0));
    assert_eq!(sys_semaphore_up(&mut p, t1, 0), 0);
    assert_eq!(p.tasks[t2].status, TaskStatus::Runnable);
    assert_eq!(p.tasks[t3].status, TaskStatus::BlockedOnSemaphore(0));
    assert_eq!(sys_semaphore_up(&mut p, t2, 0), 0);
    assert_eq!(p.tasks[t3].status, TaskStatus::Runnable);
}

#[test]
fn create_reuses_freed_slot_before_growing() {
    // A freed registry slot (a `None` entry) is reused for the next
    // creation instead of growing the table, and the reused id's
    // accounting entries are reset.
    let mut p = ProcessState::new();
    let a = p.spawn_task();
    assert_eq!(sys_mutex_create(&mut p, true), 0);
    assert_eq!(sys_mutex_create(&mut p, true), 1);
    p.mutex_list[0] = None;
    assert_eq!(sys_mutex_create(&mut p, false), 0);
    assert_eq!(p.mutex_list.len(), 2);
    assert_eq!(sys_mutex_lock(&mut p, a, 0), 0);
    assert_eq!(p.tasks[a].mutex_alloc[0], 1);
    assert_eq!(sys_semaphore_create(&mut p, 1), 0);
    p.semaphore_list[0] = None;
    assert_eq!(sys_semaphore_create(&mut p, 3), 0);
    assert_eq!(p.semaphore_list.len(), 1);
    assert_eq!(p.semaphore_list[0].as_ref().unwrap().test(), 3);
    assert_eq!(sys_condvar_create(&mut p), 0);
    p.condvar_list[0] = None;
    assert_eq!(sys_condvar_create(&mut p), 0);
    assert_eq!(p.condvar_list.len(), 1);
}

#[test]
fn semaphore_with_largest_count() {
    let mut p = ProcessState::new();
    let a = p.spawn_task();
    assert_eq!(sys_semaphore_create(&mut p, isize::MAX as usize), 0);
    assert_eq!(p.semaphore_list[0].as_ref().unwrap().test(), isize::MAX);
    assert_eq!(sys_semaphore_down(&mut p, a, 0), 0);
    assert_eq!(p.semaphore_list[0].as_ref().unwrap().test(), isize::MAX - 1);
    assert_eq!(sys_semaphore_up(&mut p, a, 0), 0);
    assert_eq!(p.semaphore_list[0].as_ref().unwrap().test(), isize::MAX);
}

#[test]
fn spin_retry_with_detection_enabled() {
    // The detector is consulted once per acquisition, on the first
    // attempt. A spinning task's request is already recorded in its need
    // entry, so a retry must not be re-checked against itself: once the
    // holder releases, the retry succeeds even with detection on.
    let mut p = ProcessState::new();
    let a = p.spawn_task();
    let b = p.spawn_task();
    assert_eq!(sys_enable_deadlock_detect(&mut p, 1), 0);
    assert_eq!(sys_mutex_create(&mut p, false), 0);
    assert_eq!(sys_mutex_lock(&mut p, a, 0), 0);
    assert_eq!(sys_mutex_lock(&mut p, b, 0), 0);
    assert_eq!(p.tasks[b].status, TaskStatus::SpinningOn(0));
    // A retry while the lock is still held keeps spinning, no error.
    assert_eq!(sys_mutex_lock(&mut p, b, 0), 0);
    assert_eq!(p.tasks[b].status, TaskStatus::SpinningOn(0));
    assert_eq!(sys_mutex_unlock(&mut p, a, 0), 0);
    assert_eq!(sys_mutex_lock(&mut p, b, 0), 0);
    assert_eq!(p.tasks[b].status, TaskStatus::Runnable);
    assert_eq!(p.tasks[b].mutex_alloc[0], 1);
}
