use sync_core::condvar::Condvar;
use sync_core::mutex::LockAttempt;
use sync_core::mutex::Mutex;
use sync_core::mutex::MutexBlocking;
use sync_core::mutex::MutexSpin;
use sync_core::semaphore::Semaphore;
use sync_core::task::TaskControlBlock;
use sync_core::task::TaskStatus;
use sync_core::up::UPSafeCell;
use sync_core::up::UUPSafeCell;

#[test]
fn up_safe_cell_round_trip() {
    let mut cell = UPSafeCell::new(41u64);
    assert_eq!(*cell.nomut_access(), 41);
    let inner = cell.exclusive_access();
    *inner = 42;
    assert_eq!(*cell.nomut_access(), 42);
}

#[test]
fn uup_safe_cell_unwrap() {
    let mut cell = UUPSafeCell::new(vec![1usize, 2, 3]);
    cell.exclusive_access().push(4);
    assert_eq!(*cell.nomut_access(), vec![1, 2, 3, 4]);
    assert_eq!(cell.unwrap(), vec![1, 2, 3, 4]);
}

#[test]
fn spin_mutex_lock_unlock() {
    let mut m = MutexSpin::new(0);
    assert_eq!(m.test(), 1);
    assert_eq!(m.lock(7), LockAttempt::Acquired);
    assert_eq!(m.test(), 0);
    // A second contender is told to yield and retry; nothing is queued.
    assert_eq!(m.lock(8), LockAttempt::WouldSpin);
    assert_eq!(m.test(), 0);
    assert_eq!(m.unlock(), None);
    assert_eq!(m.test(), 1);
    assert_eq!(m.lock(8), LockAttempt::Acquired);
}

#[test]
fn blocking_mutex_queues_and_hands_off() {
    let mut m = MutexBlocking::new(3);
    assert_eq!(m.lock(1), LockAttempt::Acquired);
    assert_eq!(m.lock(2), LockAttempt::Queued);
    assert_eq!(m.lock(5), LockAttempt::Queued);
    // Direct handoff: the earliest waiter gets the lock, which never
    // reports itself free in between.
    assert_eq!(m.unlock(), Some(2));
    assert_eq!(m.test(), 0);
    assert_eq!(m.unlock(), Some(5));
    assert_eq!(m.test(), 0);
    assert_eq!(m.unlock(), None);
    assert_eq!(m.test(), 1);
}

#[test]
fn mutex_accounting_cycle() {
    let m = MutexSpin::new(0);
    let mut task = TaskControlBlock::new(1, 0);
    assert_eq!(task.mutex_need[0], 0);
    m.add_need(&mut task);
    assert_eq!(task.mutex_need[0], 1);
    assert_eq!(task.mutex_alloc[0], 0);
    m.need_into_alloc(&mut task);
    assert_eq!(task.mutex_need[0], 0);
    assert_eq!(task.mutex_alloc[0], 1);
    m.release_alloc(&mut task);
    assert_eq!(task.mutex_alloc[0], 0);
}

#[test]
fn semaphore_counts_and_parks() {
    let mut s = Semaphore::new(1, 0);
    assert_eq!(s.test(), 1);
    assert!(!s.down(1));
    assert_eq!(s.test(), 0);
    assert!(s.down(2));
    assert_eq!(s.test(), -1);
    // The negated count equals the number of parked waiters.
    assert!(s.down(3));
    assert_eq!(s.test(), -2);
    assert_eq!(s.up(), Some(2));
    assert_eq!(s.up(), Some(3));
    assert_eq!(s.test(), 0);
    assert_eq!(s.up(), None);
    assert_eq!(s.test(), 1);
}

#[test]
fn semaphore_conservation_arithmetic() {
    // count always equals initial + ups - downs: 3 - 2 + 1 = 2.
    let mut s = Semaphore::new(3, 0);
    assert!(!s.down(1));
    assert!(!s.down(2));
    assert_eq!(s.test(), 1);
    assert_eq!(s.up(), None);
    assert_eq!(s.test(), 2);
}

#[test]
fn semaphore_accounting_cycle() {
    let s = Semaphore::new(2, 0);
    let mut task = TaskControlBlock::new(0, 1);
    s.add_need(&mut task);
    assert_eq!(task.semaphore_need[0], 1);
    s.need_into_alloc(&mut task);
    assert_eq!(task.semaphore_need[0], 0);
    assert_eq!(task.semaphore_alloc[0], 1);
    s.release_alloc(&mut task);
    assert_eq!(task.semaphore_alloc[0], 0);
}

#[test]
fn condvar_signal_pops_fifo() {
    let mut cv = Condvar::new();
    assert_eq!(cv.signal(), None);
    cv.wait(4);
    cv.wait(9);
    assert_eq!(cv.signal(), Some(4));
    assert_eq!(cv.signal(), Some(9));
    assert_eq!(cv.signal(), None);
}

#[test]
fn task_vectors_grow_in_lock_step() {
    let mut task = TaskControlBlock::new(1, 1);
    task.add_mutex();
    task.add_semaphore();
    assert_eq!(task.mutex_need.len(), 2);
    assert_eq!(task.mutex_alloc.len(), 2);
    assert_eq!(task.semaphore_need.len(), 2);
    assert_eq!(task.semaphore_alloc.len(), 2);
    task.mutex_need[1] = 1;
    task.reset_mutex(1);
    assert_eq!(task.mutex_need[1], 0);
    assert_eq!(task.status, TaskStatus::Runnable);
    assert!(task.alive);
}
