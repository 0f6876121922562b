//! Properties of the task manager that span its operations.

use vstd::prelude::*;
use crate::task::group::GroupId;
use crate::task::manager::{
    cancel_every, cancel_members, deps_completed, eligible, finish, has_id, in_groups, lemma_picked_eligible,
    mark_running, picked, scope_count, task_at,
};
use crate::task::status::{TaskStatus, terminal};
use crate::task::task::{Task, TaskId};

verus! {

broadcast use Task::lemma_with_status;

/// A finished task stays finished: cancelling, completing or failing a
/// task leaves every terminal task (and every other task) as it was.
pub proof fn law_finish_keeps_terminal(ts: Seq<Task>, id: TaskId, status: TaskStatus, i: int)
    requires
        0 <= i < ts.len(),
        terminal(ts[i].spec_status()) || i != id - 1,
    ensures
        finish(ts, id, status)[i] == ts[i],
        finish(ts, id, status).len() == ts.len(),
{
}

/// Scheduling only starts pending tasks, so it never touches a terminal
/// task.
pub proof fn law_schedule_keeps_terminal(ts: Seq<Task>, workers: Seq<TaskId>, slots: nat, i: int)
    requires
        ts.len() < u64::MAX,
        0 <= i < ts.len(),
        terminal(ts[i].spec_status()),
    ensures
        mark_running(ts, picked(ts, workers, slots, 0))[i] == ts[i],
{
    lemma_picked_eligible(ts, workers, slots, 0);
    let sel = picked(ts, workers, slots, 0);
    if sel.contains((i + 1) as TaskId) {
        let k = choose|k: int| 0 <= k < sel.len() && sel[k] == (i + 1) as TaskId;
        assert(eligible(ts, workers, sel[k] - 1));
    }
}

/// Cancelling a group never changes a task that already finished.
pub proof fn law_cancel_group_keeps_terminal(ts: Seq<Task>, gs: Seq<GroupId>, i: int)
    requires
        0 <= i < ts.len(),
        terminal(ts[i].spec_status()),
    ensures
        cancel_members(ts, gs)[i] == ts[i],
{
}

/// After a group is cancelled, every task in it (or in a sub-group) is
/// terminal.
pub proof fn law_cancel_group_terminates_members(ts: Seq<Task>, gs: Seq<GroupId>, i: int)
    requires
        0 <= i < ts.len(),
        in_groups(ts[i], gs),
    ensures
        terminal(cancel_members(ts, gs)[i].spec_status()),
{
}

/// A task is only started when it was pending, every dependency it names
/// has completed, and no worker runs it; no task is started twice and no
/// more tasks start than there are free slots.
pub proof fn law_schedule_respects_dependencies(ts: Seq<Task>, workers: Seq<TaskId>, slots: nat)
    requires
        ts.len() < u64::MAX,
    ensures
        picked(ts, workers, slots, 0).len() <= slots,
        forall|k: int| 0 <= k < picked(ts, workers, slots, 0).len() ==> {
            let id = #[trigger] picked(ts, workers, slots, 0)[k];
            &&& has_id(ts, id)
            &&& task_at(ts, id).spec_status() is Pending
            &&& deps_completed(ts, id - 1)
            &&& !workers.contains(id)
        },
        forall|a: int, b: int| 0 <= a < b < picked(ts, workers, slots, 0).len()
            ==> picked(ts, workers, slots, 0)[a] < picked(ts, workers, slots, 0)[b],
{
    lemma_picked_eligible(ts, workers, slots, 0);
    lemma_picked_increasing(ts, workers, slots, 0);
}

proof fn lemma_picked_increasing(ts: Seq<Task>, workers: Seq<TaskId>, slots: nat, i: nat)
    requires
        ts.len() < u64::MAX,
    ensures
        forall|a: int, b: int| 0 <= a < b < picked(ts, workers, slots, i).len()
            ==> picked(ts, workers, slots, i)[a] < picked(ts, workers, slots, i)[b],
    decreases ts.len() - i,
{
    if i >= ts.len() || slots == 0 {
    } else if eligible(ts, workers, i as int) {
        let rest = picked(ts, workers, (slots - 1) as nat, i + 1);
        lemma_picked_increasing(ts, workers, (slots - 1) as nat, i + 1);
        lemma_picked_eligible(ts, workers, (slots - 1) as nat, i + 1);
        let all = picked(ts, workers, slots, i);
        assert(all == seq![(i + 1) as TaskId] + rest);
        assert forall|a: int, b: int| 0 <= a < b < all.len() implies all[a] < all[b] by {
            assert(all[b] == rest[b - 1]);
            assert(i + 2 <= rest[b - 1]);
            if a > 0 {
                assert(all[a] == rest[a - 1]);
            } else {
                assert(all[a] == i + 1);
            }
        }
    } else {
        lemma_picked_increasing(ts, workers, slots, i + 1);
        assert(picked(ts, workers, slots, i) == picked(ts, workers, slots, i + 1));
    }
}

/// Scheduling fills the free slots: when fewer tasks start than there are
/// slots, every task that could start does.
pub proof fn law_schedule_fills_slots(ts: Seq<Task>, workers: Seq<TaskId>, slots: nat, j: int)
    requires
        ts.len() < u64::MAX,
        picked(ts, workers, slots, 0).len() < slots,
        0 <= j < ts.len(),
        eligible(ts, workers, j),
    ensures
        picked(ts, workers, slots, 0).contains((j + 1) as TaskId),
{
    lemma_picked_complete(ts, workers, slots, 0, j);
}

proof fn lemma_picked_complete(ts: Seq<Task>, workers: Seq<TaskId>, slots: nat, i: nat, j: int)
    requires
        ts.len() < u64::MAX,
        picked(ts, workers, slots, i).len() < slots,
        i <= j < ts.len(),
        eligible(ts, workers, j),
    ensures
        picked(ts, workers, slots, i).contains((j + 1) as TaskId),
    decreases ts.len() - i,
{
    let all = picked(ts, workers, slots, i);
    if eligible(ts, workers, i as int) {
        if j == i {
            assert(all[0] == (j + 1) as TaskId);
        } else {
            let rest = picked(ts, workers, (slots - 1) as nat, i + 1);
            lemma_picked_complete(ts, workers, (slots - 1) as nat, i + 1, j);
            let k = choose|k: int| 0 <= k < rest.len() && rest[k] == (j + 1) as TaskId;
            assert(all[k + 1] == rest[k]);
        }
    } else {
        lemma_picked_complete(ts, workers, slots, i + 1, j);
    }
}

/// A group's completed count never exceeds its total.
pub proof fn law_group_completed_le_total(ts: Seq<Task>, gs: Seq<GroupId>, n: nat)
    ensures
        scope_count(ts, gs, true, n) <= scope_count(ts, gs, false, n),
    decreases n,
{
    if n > 0 {
        law_group_completed_le_total(ts, gs, (n - 1) as nat);
    }
}

/// After "Cancel all", every task is terminal, and the tasks that had
/// already finished are as they were.
pub proof fn law_cancel_all_finishes_everything(ts: Seq<Task>, i: int)
    requires
        0 <= i < ts.len(),
    ensures
        terminal(cancel_every(ts)[i].spec_status()),
        terminal(ts[i].spec_status()) ==> cancel_every(ts)[i] == ts[i],
{
}

/// A task added under the next id is found again under that id, as it
/// was added: adding is read back by lookup.
pub proof fn law_added_task_is_found(ts: Seq<Task>, t: Task)
    requires
        ts.len() < u64::MAX,
    ensures
        has_id(ts.push(t.with_id((ts.len() + 1) as TaskId)), (ts.len() + 1) as TaskId),
        task_at(ts.push(t.with_id((ts.len() + 1) as TaskId)), (ts.len() + 1) as TaskId) == t.with_id(
            (ts.len() + 1) as TaskId,
        ),
        forall|id: TaskId| #[trigger] has_id(ts, id) ==> task_at(ts.push(t.with_id((ts.len() + 1) as TaskId)), id)
            == task_at(ts, id),
{
}

/// The tasks of `ts` in the groups `gs`.
pub open spec fn in_scope(gs: Seq<GroupId>) -> spec_fn(Task) -> bool {
    |t: Task| in_groups(t, gs)
}

/// The tasks of `ts` in the groups `gs` that completed.
pub open spec fn completed_in_scope(gs: Seq<GroupId>) -> spec_fn(Task) -> bool {
    |t: Task| in_groups(t, gs) && t.spec_status() is Completed
}

proof fn lemma_scope_count_filter(ts: Seq<Task>, gs: Seq<GroupId>, n: nat)
    requires
        n <= ts.len(),
    ensures
        scope_count(ts, gs, true, n) == ts.take(n as int).filter(completed_in_scope(gs)).len(),
        scope_count(ts, gs, false, n) == ts.take(n as int).filter(in_scope(gs)).len(),
    decreases n,
{
    if n == 0 {
        assert(ts.take(0) =~= Seq::<Task>::empty());
        reveal(Seq::filter);
    } else {
        lemma_scope_count_filter(ts, gs, (n - 1) as nat);
        let s = ts.take(n as int);
        assert(s.drop_last() =~= ts.take(n - 1));
        assert(s.last() == ts[n - 1]);
        reveal(Seq::filter);
    }
}

/// A group's progress counts what its subtree holds: the first count is
/// the number of tasks in the groups `gs` whose status is Completed (a
/// failed or cancelled task never counts as done), the second the number
/// of tasks in those groups.
pub proof fn law_group_counts_count_completed(ts: Seq<Task>, gs: Seq<GroupId>)
    ensures
        scope_count(ts, gs, true, ts.len()) == ts.filter(completed_in_scope(gs)).len(),
        scope_count(ts, gs, false, ts.len()) == ts.filter(in_scope(gs)).len(),
{
    lemma_scope_count_filter(ts, gs, ts.len());
    assert(ts.take(ts.len() as int) =~= ts);
}

} // verus!
