//! FIFO fairness of the wait queues.
//!
//! Every wait queue in this core is strict first-in, first-out: a blocking
//! acquisition appends the caller at the tail (the operations' contracts
//! state `queue == old.push(tid)`), and every wakeup removes the head
//! (`woken == old.queue[0]`, `queue == old.drop_first()`). This module
//! states the law those contracts add up to: the task that blocked earlier
//! is woken strictly before the one that blocked later.

use vstd::prelude::*;

verus! {

/// The task woken by the `k`-th wakeup on a queue that receives no further
/// arrivals: each wakeup takes the head, so the next one works on the rest.
pub open spec fn woken_after(q: Seq<usize>, k: int) -> usize
    decreases k,
{
    if k <= 0 {
        q[0]
    } else {
        woken_after(q.drop_first(), k - 1)
    }
}

/// Head-by-head wakeup serves the queue in order: the `k`-th wakeup wakes
/// exactly the task at position `k`.
pub proof fn lemma_wakeup_in_queue_order(q: Seq<usize>, k: int)
    requires
        0 <= k < q.len(),
    ensures
        woken_after(q, k) == q[k],
    decreases k,
{
    if k > 0 {
        lemma_wakeup_in_queue_order(q.drop_first(), k - 1);
    }
}

/// FIFO fairness: if task `a` blocks on a primitive before task `b` does,
/// then `a` stands earlier in the wait queue and is woken strictly before
/// `b` — `a` leaves on wakeup number `q.len()` and `b` only on the next.
pub proof fn lemma_fifo_fairness(q: Seq<usize>, a: usize, b: usize)
    ensures
        woken_after(q.push(a).push(b), q.len() as int) == a,
        woken_after(q.push(a).push(b), q.len() as int + 1) == b,
{
    let q2 = q.push(a).push(b);
    assert(q2[q.len() as int] == a);
    assert(q2[q.len() as int + 1] == b);
    lemma_wakeup_in_queue_order(q2, q.len() as int);
    lemma_wakeup_in_queue_order(q2, q.len() as int + 1);
}

} // verus!
