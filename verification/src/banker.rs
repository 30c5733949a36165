//! Banker's-algorithm safety check.
//!
//! The check works over a fixed snapshot: a vector of currently available
//! units per resource, and per-task `need` and `alloc` matrices indexed by
//! task slot and resource id. A state is *safe* when the tasks can finish in
//! some order, each step picking a task whose need is covered by what is
//! available and then returning that task's allocation. The executable check
//! runs the classic greedy algorithm and is proved to return "deadlock"
//! exactly when no such order exists.

use vstd::prelude::*;

verus! {

/// Integer view of a vector of resource counts.
pub open spec fn int_view(s: Seq<usize>) -> Seq<int> {
    Seq::new(s.len(), |j: int| s[j] as int)
}

/// Every row of the matrix has one entry per resource column.
pub open spec fn rectangular(m: Seq<Seq<usize>>, cols: int) -> bool {
    forall|t: int| 0 <= t < m.len() ==> (#[trigger] m[t]).len() == cols
}

/// Every task slot is finished.
pub open spec fn all_finished(finish: Seq<bool>) -> bool {
    forall|t: int| 0 <= t < finish.len() ==> #[trigger] finish[t]
}

/// Number of unfinished slots among the first `k`.
pub open spec fn unfinished_upto(finish: Seq<bool>, k: int) -> int
    decreases k,
{
    if k <= 0 {
        0
    } else {
        unfinished_upto(finish, k - 1) + if finish[k - 1] {
            0int
        } else {
            1int
        }
    }
}

/// Number of unfinished task slots.
pub open spec fn unfinished(finish: Seq<bool>) -> int {
    unfinished_upto(finish, finish.len() as int)
}

/// `row` is covered: pointwise, the need does not exceed what is available.
pub open spec fn covered(avail: Seq<int>, row: Seq<usize>) -> bool {
    forall|j: int| 0 <= j < avail.len() ==> (#[trigger] row[j]) as int <= avail[j]
}

/// Availability after a finished task returns its allocation row.
pub open spec fn grant(avail: Seq<int>, row: Seq<usize>) -> Seq<int> {
    Seq::new(avail.len(), |j: int| avail[j] + row[j])
}

/// Task `t` is unfinished and could run to completion right now.
pub open spec fn step_ok(avail: Seq<int>, need: Seq<Seq<usize>>, finish: Seq<bool>, t: int) -> bool {
    &&& 0 <= t < finish.len()
    &&& !finish[t]
    &&& covered(avail, need[t])
}

/// Safety: all tasks can finish in some order. Either every slot is already
/// finished, or some unfinished task's need is covered and the state after
/// it finishes and returns its allocation is safe in turn.
pub open spec fn safe(
    avail: Seq<int>,
    need: Seq<Seq<usize>>,
    alloc: Seq<Seq<usize>>,
    finish: Seq<bool>,
) -> bool
    decreases unfinished(finish),
    via safe_decreases
{
    ||| all_finished(finish)
    ||| exists|t: int|
        #[trigger] step_ok(avail, need, finish, t) && safe(
            grant(avail, alloc[t]),
            need,
            alloc,
            finish.update(t, true),
        )
}

#[via_fn]
proof fn safe_decreases(avail: Seq<int>, need: Seq<Seq<usize>>, alloc: Seq<Seq<usize>>, finish: Seq<bool>) {
    assert forall|t: int| step_ok(avail, need, finish, t) implies 0 <= unfinished(
        finish.update(t, true),
    ) < unfinished(finish) by {
        lemma_unfinished_update(finish, t);
        lemma_unfinished_upto_bounds(finish.update(t, true), finish.len() as int);
    }
}

/// The partial count of unfinished slots lies between 0 and `k`.
pub proof fn lemma_unfinished_upto_bounds(finish: Seq<bool>, k: int)
    ensures
        0 <= unfinished_upto(finish, k),
        k >= 0 ==> unfinished_upto(finish, k) <= k,
    decreases k,
{
    if k > 0 {
        lemma_unfinished_upto_bounds(finish, k - 1);
    }
}

proof fn lemma_unfinished_update_upto(finish: Seq<bool>, t: int, k: int)
    requires
        0 <= t < finish.len(),
        k <= finish.len(),
    ensures
        unfinished_upto(finish.update(t, true), k) == unfinished_upto(finish, k) - if t < k
            && !finish[t] {
            1int
        } else {
            0int
        },
    decreases k,
{
    if k > 0 {
        lemma_unfinished_update_upto(finish, t, k - 1);
    }
}

/// Finishing one unfinished slot lowers the unfinished count by one.
pub proof fn lemma_unfinished_update(finish: Seq<bool>, t: int)
    requires
        0 <= t < finish.len(),
        !finish[t],
    ensures
        unfinished(finish.update(t, true)) == unfinished(finish) - 1,
{
    lemma_unfinished_update_upto(finish, t, finish.len() as int);
}

proof fn lemma_all_finished_upto(finish: Seq<bool>, k: int)
    requires
        k <= finish.len(),
    ensures
        (unfinished_upto(finish, k) == 0) <==> (forall|t: int| 0 <= t < k ==> #[trigger] finish[t]),
    decreases k,
{
    if k > 0 {
        lemma_all_finished_upto(finish, k - 1);
        lemma_unfinished_upto_bounds(finish, k - 1);
    }
}

/// A state has no unfinished slots exactly when every slot is finished.
pub proof fn lemma_all_finished_iff_zero(finish: Seq<bool>)
    ensures
        (unfinished(finish) == 0) <==> all_finished(finish),
{
    lemma_all_finished_upto(finish, finish.len() as int);
}

/// Sum, over the unfinished rows among the first `k`, of column `j`.
pub open spec fn pending_sum_upto(m: Seq<Seq<usize>>, finish: Seq<bool>, j: int, k: int) -> int
    decreases k,
{
    if k <= 0 {
        0
    } else {
        pending_sum_upto(m, finish, j, k - 1) + if finish[k - 1] {
            0int
        } else {
            m[k - 1][j] as int
        }
    }
}

/// Sum of column `j` over all unfinished rows.
pub open spec fn pending_sum(m: Seq<Seq<usize>>, finish: Seq<bool>, j: int) -> int {
    pending_sum_upto(m, finish, j, m.len() as int)
}

/// The pending column sum is never negative.
pub proof fn lemma_pending_sum_nonneg(m: Seq<Seq<usize>>, finish: Seq<bool>, j: int, k: int)
    ensures
        pending_sum_upto(m, finish, j, k) >= 0,
    decreases k,
{
    if k > 0 {
        lemma_pending_sum_nonneg(m, finish, j, k - 1);
    }
}

proof fn lemma_pending_sum_update_upto(m: Seq<Seq<usize>>, finish: Seq<bool>, t: int, j: int, k: int)
    requires
        0 <= t < finish.len(),
        k <= finish.len(),
    ensures
        pending_sum_upto(m, finish.update(t, true), j, k) == pending_sum_upto(m, finish, j, k)
            - if t < k && !finish[t] {
            m[t][j] as int
        } else {
            0int
        },
    decreases k,
{
    if k > 0 {
        lemma_pending_sum_update_upto(m, finish, t, j, k - 1);
    }
}

/// Finishing row `t` removes exactly its entry from the pending column sum.
pub proof fn lemma_pending_sum_update(m: Seq<Seq<usize>>, finish: Seq<bool>, t: int, j: int)
    requires
        0 <= t < finish.len(),
        finish.len() == m.len(),
        !finish[t],
    ensures
        pending_sum(m, finish.update(t, true), j) == pending_sum(m, finish, j) - m[t][j],
{
    lemma_pending_sum_update_upto(m, finish, t, j, m.len() as int);
}

proof fn lemma_pending_entry_le_upto(m: Seq<Seq<usize>>, finish: Seq<bool>, t: int, j: int, k: int)
    requires
        0 <= t < k,
        !finish[t],
    ensures
        m[t][j] <= pending_sum_upto(m, finish, j, k),
    decreases k,
{
    lemma_pending_sum_nonneg(m, finish, j, k - 1);
    if t < k - 1 {
        lemma_pending_entry_le_upto(m, finish, t, j, k - 1);
    }
}

/// An unfinished row's entry is at most the pending column sum.
pub proof fn lemma_pending_entry_le(m: Seq<Seq<usize>>, finish: Seq<bool>, t: int, j: int)
    requires
        0 <= t < m.len(),
        finish.len() == m.len(),
        !finish[t],
    ensures
        m[t][j] <= pending_sum(m, finish, j),
{
    lemma_pending_entry_le_upto(m, finish, t, j, m.len() as int);
}

/// Exchange step of the Banker's safety argument: in a safe state, granting
/// any one runnable unfinished task its completion keeps the state safe.
/// This is why the greedy algorithm never needs to back-track.
pub proof fn lemma_safe_grant(
    avail: Seq<int>,
    need: Seq<Seq<usize>>,
    alloc: Seq<Seq<usize>>,
    finish: Seq<bool>,
    t: int,
)
    requires
        need.len() == finish.len(),
        alloc.len() == finish.len(),
        step_ok(avail, need, finish, t),
        safe(avail, need, alloc, finish),
    ensures
        safe(grant(avail, alloc[t]), need, alloc, finish.update(t, true)),
    decreases unfinished(finish),
{
    let fin_t = finish.update(t, true);
    let a_t = grant(avail, alloc[t]);
    assert(!all_finished(finish));
    let u = choose|u: int|
        #[trigger] step_ok(avail, need, finish, u) && safe(
            grant(avail, alloc[u]),
            need,
            alloc,
            finish.update(u, true),
        );
    if u == t {
        assert(safe(a_t, need, alloc, fin_t));
    } else {
        let fin_u = finish.update(u, true);
        let a_u = grant(avail, alloc[u]);
        assert(covered(a_t, need[u])) by {
            assert(forall|j: int|
                0 <= j < avail.len() ==> (#[trigger] need[u][j]) as int <= avail[j]);
            assert(forall|j: int| 0 <= j < a_t.len() ==> avail[j] <= #[trigger] a_t[j]);
        }
        assert(step_ok(a_t, need, fin_t, u));
        assert(covered(a_u, need[t])) by {
            assert(forall|j: int|
                0 <= j < avail.len() ==> (#[trigger] need[t][j]) as int <= avail[j]);
            assert(forall|j: int| 0 <= j < a_u.len() ==> avail[j] <= #[trigger] a_u[j]);
        }
        assert(step_ok(a_u, need, fin_u, t));
        lemma_unfinished_update(finish, u);
        lemma_unfinished_upto_bounds(fin_u, fin_u.len() as int);
        lemma_safe_grant(a_u, need, alloc, fin_u, t);
        assert(grant(a_u, alloc[t]) =~= grant(a_t, alloc[u]));
        assert(fin_u.update(t, true) =~= fin_t.update(u, true));
        assert(step_ok(a_t, need, fin_t, u) && safe(
            grant(a_t, alloc[u]),
            need,
            alloc,
            fin_t.update(u, true),
        ));
        assert(safe(a_t, need, alloc, fin_t));
    }
}

/// Folding step: if some runnable unfinished task leads to a safe state,
/// the current state is safe (that task witnesses the finishing order).
pub proof fn lemma_safe_fold(
    avail: Seq<int>,
    need: Seq<Seq<usize>>,
    alloc: Seq<Seq<usize>>,
    finish: Seq<bool>,
    t: int,
)
    requires
        step_ok(avail, need, finish, t),
        safe(grant(avail, alloc[t]), need, alloc, finish.update(t, true)),
    ensures
        safe(avail, need, alloc, finish),
{
    assert(step_ok(avail, need, finish, t) && safe(
        grant(avail, alloc[t]),
        need,
        alloc,
        finish.update(t, true),
    ));
}

/// A stalled state — some task unfinished, none runnable — is unsafe.
pub proof fn lemma_stalled_unsafe(
    avail: Seq<int>,
    need: Seq<Seq<usize>>,
    alloc: Seq<Seq<usize>>,
    finish: Seq<bool>,
)
    requires
        !all_finished(finish),
        forall|t: int| !step_ok(avail, need, finish, t),
    ensures
        !safe(avail, need, alloc, finish),
{
    if safe(avail, need, alloc, finish) {
        let t = choose|t: int|
            #[trigger] step_ok(avail, need, finish, t) && safe(
                grant(avail, alloc[t]),
                need,
                alloc,
                finish.update(t, true),
            );
        assert(false);
    }
}

/// Whether `row[j] <= avail[j]` for every resource column `j`.
fn row_covered(avail: &Vec<usize>, row: &Vec<usize>) -> (r: bool)
    requires
        row@.len() == avail@.len(),
    ensures
        r == covered(int_view(avail@), row@),
{
    let cols = avail.len();
    let mut j: usize = 0;
    while j < cols
        invariant
            j <= cols,
            cols == avail@.len(),
            row@.len() == cols,
            forall|jj: int| 0 <= jj < j ==> (#[trigger] row@[jj]) <= avail@[jj],
        decreases cols - j,
    {
        if row[j] > avail[j] {
            return false;
        }
        j += 1;
    }
    true
}

/// First unfinished task whose need row is covered by `avail`, if any.
fn find_runnable(avail: &Vec<usize>, need: &Vec<Vec<usize>>, finish: &Vec<bool>) -> (r: Option<
    usize,
>)
    requires
        need@.len() == finish@.len(),
        rectangular(need.deep_view(), avail@.len() as int),
    ensures
        r is Some ==> step_ok(int_view(avail@), need.deep_view(), finish@, r.unwrap() as int),
        r is None ==> forall|t: int| !step_ok(int_view(avail@), need.deep_view(), finish@, t),
{
    let n = finish.len();
    let mut t: usize = 0;
    while t < n
        invariant
            t <= n,
            n == finish@.len(),
            need@.len() == n,
            rectangular(need.deep_view(), avail@.len() as int),
            forall|tt: int| 0 <= tt < t ==> !step_ok(int_view(avail@), need.deep_view(), finish@, tt),
        decreases n - t,
    {
        if !finish[t] {
            assert(need.deep_view()[t as int] == need@[t as int]@);
            if row_covered(avail, &need[t]) {
                assert(step_ok(int_view(avail@), need.deep_view(), finish@, t as int));
                return Some(t);
            }
        }
        t += 1;
    }
    None
}

/// Adds one returned allocation row into the available vector, pointwise.
fn add_row(avail: &mut Vec<usize>, row: &Vec<usize>)
    requires
        row@.len() == old(avail)@.len(),
        forall|j: int|
            0 <= j < old(avail)@.len() ==> old(avail)@[j] + (#[trigger] row@[j]) <= usize::MAX,
    ensures
        final(avail)@.len() == old(avail)@.len(),
        int_view(final(avail)@) == grant(int_view(old(avail)@), row@),
{
    let cols = avail.len();
    let mut j: usize = 0;
    while j < cols
        invariant
            j <= cols,
            cols == avail@.len(),
            avail@.len() == old(avail)@.len(),
            row@.len() == cols,
            forall|jj: int|
                0 <= jj < old(avail)@.len() ==> old(avail)@[jj] + (#[trigger] row@[jj])
                    <= usize::MAX,
            forall|jj: int| 0 <= jj < j ==> #[trigger] avail@[jj] == old(avail)@[jj] + row@[jj],
            forall|jj: int| j <= jj < cols ==> #[trigger] avail@[jj] == old(avail)@[jj],
        decreases cols - j,
    {
        avail[j] = avail[j] + row[j];
        j += 1;
    }
    assert(int_view(avail@) =~= grant(int_view(old(avail)@), row@));
}

/// Copies a count vector.
pub(crate) fn copy_counts(v: &Vec<usize>) -> (c: Vec<usize>)
    ensures
        c@ == v@,
{
    let n = v.len();
    let mut c: Vec<usize> = Vec::new();
    let mut i: usize = 0;
    while i < n
        invariant
            i <= n,
            n == v@.len(),
            c@ == v@.take(i as int),
        decreases n - i,
    {
        c.push(v[i]);
        assert(c@ =~= v@.take(i + 1));
        i += 1;
    }
    assert(c@ =~= v@);
    c
}

/// Copies a finish-flag vector.
fn copy_flags(v: &Vec<bool>) -> (c: Vec<bool>)
    ensures
        c@ == v@,
{
    let n = v.len();
    let mut c: Vec<bool> = Vec::new();
    let mut i: usize = 0;
    while i < n
        invariant
            i <= n,
            n == v@.len(),
            c@ == v@.take(i as int),
        decreases n - i,
    {
        c.push(v[i]);
        assert(c@ =~= v@.take(i + 1));
        i += 1;
    }
    assert(c@ =~= v@);
    c
}

/// Counts the finished slots.
fn count_finished(finish: &Vec<bool>) -> (cnt: usize)
    ensures
        cnt == finish@.len() - unfinished(finish@),
{
    let n = finish.len();
    let mut cnt: usize = 0;
    let mut i: usize = 0;
    while i < n
        invariant
            i <= n,
            n == finish@.len(),
            0 <= unfinished_upto(finish@, i as int) <= i,
            cnt == i - unfinished_upto(finish@, i as int),
        decreases n - i,
    {
        proof {
            lemma_unfinished_upto_bounds(finish@, i + 1);
        }
        if finish[i] {
            cnt += 1;
        }
        i += 1;
    }
    cnt
}

/// The Banker's safety check proper, on a fixed snapshot.
///
/// `finish_init` marks the task slots that are already finished (empty or
/// terminated); their allocation rows are not collected. Returns true
/// exactly when the snapshot is *unsafe*: no order lets every remaining
/// task finish, so granting the in-flight request could deadlock the
/// process. The bound on `available` plus the pending allocation column
/// keeps the collected counts within the machine's range.
pub fn banker_check(
    available: &Vec<usize>,
    need: &Vec<Vec<usize>>,
    alloc: &Vec<Vec<usize>>,
    finish_init: &Vec<bool>,
) -> (deadlock: bool)
    requires
        need@.len() == finish_init@.len(),
        alloc@.len() == finish_init@.len(),
        rectangular(need.deep_view(), available@.len() as int),
        rectangular(alloc.deep_view(), available@.len() as int),
        forall|j: int|
            0 <= j < available@.len() ==> (#[trigger] available@[j]) + pending_sum(
                alloc.deep_view(),
                finish_init@,
                j,
            ) <= usize::MAX,
    ensures
        deadlock == !safe(int_view(available@), need.deep_view(), alloc.deep_view(), finish_init@),
{
    let n = finish_init.len();
    let cols = available.len();
    let mut avail = copy_counts(available);
    let mut finish = copy_flags(finish_init);
    let mut finish_cnt = count_finished(&finish);
    let ghost initial_cnt = n - unfinished(finish_init@);
    proof {
        lemma_unfinished_upto_bounds(finish_init@, n as int);
    }
    let mut pass: usize = 0;
    while pass < n
        invariant
            pass <= n,
            n == finish_init@.len(),
            need@.len() == n,
            alloc@.len() == n,
            cols == available@.len(),
            avail@.len() == cols,
            finish@.len() == n,
            rectangular(need.deep_view(), cols as int),
            rectangular(alloc.deep_view(), cols as int),
            0 <= unfinished(finish@) <= n,
            finish_cnt == n - unfinished(finish@),
            forall|j: int|
                0 <= j < cols ==> (#[trigger] avail@[j]) + pending_sum(
                    alloc.deep_view(),
                    finish@,
                    j,
                ) <= usize::MAX,
            safe(int_view(avail@), need.deep_view(), alloc.deep_view(), finish@) == safe(
                int_view(available@),
                need.deep_view(),
                alloc.deep_view(),
                finish_init@,
            ),
            finish_cnt >= initial_cnt + pass || (forall|t: int|
                !step_ok(int_view(avail@), need.deep_view(), finish@, t)),
        decreases n - pass,
    {
        match find_runnable(&avail, need, &finish) {
            Some(t) => {
                let ghost pre_avail = avail@;
                let ghost pre_finish = finish@;
                proof {
                    lemma_unfinished_update(pre_finish, t as int);
                    lemma_unfinished_upto_bounds(pre_finish.update(t as int, true), n as int);
                    assert forall|j: int| 0 <= j < cols implies (#[trigger] avail@[j])
                        + alloc@[t as int]@[j] <= usize::MAX by {
                        lemma_pending_entry_le(alloc.deep_view(), pre_finish, t as int, j);
                        assert(alloc.deep_view()[t as int] == alloc@[t as int]@);
                    }
                }
                add_row(&mut avail, &alloc[t]);
                finish[t] = true;
                finish_cnt += 1;
                proof {
                    let dv_need = need.deep_view();
                    let dv_alloc = alloc.deep_view();
                    assert(dv_alloc[t as int] == alloc@[t as int]@);
                    assert(int_view(avail@) == grant(int_view(pre_avail), dv_alloc[t as int]));
                    assert(finish@ == pre_finish.update(t as int, true));
                    // The safety equivalence is preserved in both directions.
                    if safe(int_view(pre_avail), dv_need, dv_alloc, pre_finish) {
                        lemma_safe_grant(int_view(pre_avail), dv_need, dv_alloc, pre_finish, t as int);
                    }
                    if safe(int_view(avail@), dv_need, dv_alloc, finish@) {
                        lemma_safe_fold(int_view(pre_avail), dv_need, dv_alloc, pre_finish, t as int);
                    }
                    // The overflow bound follows the moved allocation row.
                    assert forall|j: int| 0 <= j < cols implies (#[trigger] avail@[j])
                        + pending_sum(dv_alloc, finish@, j) <= usize::MAX by {
                        lemma_pending_sum_update(dv_alloc, pre_finish, t as int, j);
                        assert(int_view(avail@)[j] == avail@[j]);
                        assert(grant(int_view(pre_avail), dv_alloc[t as int])[j] == pre_avail[j]
                            + dv_alloc[t as int][j]);
                        assert(avail@[j] == pre_avail[j] + dv_alloc[t as int][j]);
                        assert(pre_avail[j] + pending_sum(dv_alloc, pre_finish, j) <= usize::MAX);
                    }
                }
            },
            None => {
            },
        }
        pass += 1;
    }
    proof {
        let dv_need = need.deep_view();
        let dv_alloc = alloc.deep_view();
        lemma_all_finished_iff_zero(finish@);
        if finish_cnt == n {
            assert(all_finished(finish@));
            assert(safe(int_view(avail@), dv_need, dv_alloc, finish@));
        } else {
            assert(unfinished(finish@) > 0);
            assert(!all_finished(finish@));
            assert(forall|t: int| !step_ok(int_view(avail@), dv_need, finish@, t));
            lemma_stalled_unsafe(int_view(avail@), dv_need, dv_alloc, finish@);
        }
    }
    finish_cnt != n
}

} // verus!
