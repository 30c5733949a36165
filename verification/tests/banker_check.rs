use sync_core::banker::banker_check;

fn matrix(rows: &[&[usize]]) -> Vec<Vec<usize>> {
    rows.iter().map(|r| r.to_vec()).collect()
}

#[test]
fn empty_snapshot_is_safe() {
    let available: Vec<usize> = Vec::new();
    let need: Vec<Vec<usize>> = Vec::new();
    let alloc: Vec<Vec<usize>> = Vec::new();
    let finish: Vec<bool> = Vec::new();
    assert!(!banker_check(&available, &need, &alloc, &finish));
}

#[test]
fn cyclic_wait_is_unsafe() {
    // Task 0 holds resource 0 and needs resource 1, which task 1 holds
    // while needing resource 0.
    let available: Vec<usize> = vec![0, 0];
    let need = matrix(&[&[0, 1], &[1, 0]]);
    let alloc = matrix(&[&[1, 0], &[0, 1]]);
    let finish = vec![false, false];
    assert!(banker_check(&available, &need, &alloc, &finish));
}

#[test]
fn satisfiable_in_some_order_is_safe() {
    // Task 1 can finish with what is available, after which task 0's need
    // is covered: a safe ordering exists even though task 0 cannot go
    // first.
    let available: Vec<usize> = vec![0, 1];
    let need = matrix(&[&[0, 2], &[0, 1]]);
    let alloc = matrix(&[&[1, 0], &[0, 1]]);
    let finish = vec![false, false];
    assert!(!banker_check(&available, &need, &alloc, &finish));
}

#[test]
fn classic_banker_example_is_safe() {
    // A textbook multi-resource snapshot with a valid finishing order.
    let available: Vec<usize> = vec![3, 3, 2];
    let need = matrix(&[
        &[7, 4, 3],
        &[1, 2, 2],
        &[6, 0, 0],
        &[0, 1, 1],
        &[4, 3, 1],
    ]);
    let alloc = matrix(&[
        &[0, 1, 0],
        &[2, 0, 0],
        &[3, 0, 2],
        &[2, 1, 1],
        &[0, 0, 2],
    ]);
    let finish = vec![false; 5];
    assert!(!banker_check(&available, &need, &alloc, &finish));
}

#[test]
fn starved_single_task_is_unsafe() {
    let available: Vec<usize> = vec![1];
    let need = matrix(&[&[2]]);
    let alloc = matrix(&[&[0]]);
    let finish = vec![false];
    assert!(banker_check(&available, &need, &alloc, &finish));
}

#[test]
fn finished_marks_drop_tasks_from_the_check() {
    // The same starving need, but the slot is already finished: nothing is
    // left to deadlock.
    let available: Vec<usize> = vec![1];
    let need = matrix(&[&[2]]);
    let alloc = matrix(&[&[0]]);
    let finish = vec![true];
    assert!(!banker_check(&available, &need, &alloc, &finish));
}

#[test]
fn released_allocations_become_available() {
    // Task 0 finishes first and its allocation lets both others run.
    let available: Vec<usize> = vec![1, 0];
    let need = matrix(&[&[1, 0], &[2, 1], &[0, 1]]);
    let alloc = matrix(&[&[1, 1], &[0, 0], &[1, 0]]);
    let finish = vec![false, false, false];
    assert!(!banker_check(&available, &need, &alloc, &finish));
}
