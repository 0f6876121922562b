//! The task manager's bookkeeping and scheduling decisions.
//!
//! The manager owns every task and group, assigns ids, decides which
//! pending tasks may start, and applies the lifecycle transitions that
//! workers report. Running the work itself (threads, channels, timing)
//! is left to the caller, which feeds the outcomes back in.

use vstd::prelude::*;
use crate::task::group::{GroupId, GroupTree, TaskGroup, ranked_by, subtree_from};
use crate::task::status::{TaskStatus, terminal};
use crate::task::task::{Task, TaskId};

verus! {

broadcast use {
    Task::lemma_with_id, Task::lemma_with_status, Task::lemma_with_message,
};

/// The manager: tasks in insertion order (task `id` sits at index
/// `id - 1`), the group tree, and the scheduling limits.
///
/// Task ids are handed out densely from 1 and tasks are never removed, so
/// one vector serves as both the lookup by id and the insertion order
/// that scheduling walks; a map beside an order queue would hold the same
/// tasks twice and need an invariant tying the two together.
pub struct TaskManager {
    tasks: Vec<Task>,
    groups: GroupTree,
    next_group_id: u64,
    started: bool,
    max_concurrency: usize,
}

/// `id` names a task of `ts`.
pub open spec fn has_id(ts: Seq<Task>, id: TaskId) -> bool {
    1 <= id <= ts.len()
}

/// The task named `id`.
pub open spec fn task_at(ts: Seq<Task>, id: TaskId) -> Task {
    ts[id - 1]
}

/// Every dependency of `ts[i]` names a task of `ts` that has completed.
pub open spec fn deps_completed(ts: Seq<Task>, i: int) -> bool {
    forall|j: int| 0 <= j < ts[i].spec_deps().len() ==> {
        let d = #[trigger] ts[i].spec_deps()[j];
        has_id(ts, d) && task_at(ts, d).spec_status() is Completed
    }
}

/// The task named `id` gets `status`, unless it is unknown or already
/// terminal.
pub open spec fn finish(ts: Seq<Task>, id: TaskId, status: TaskStatus) -> Seq<Task> {
    if has_id(ts, id) && !terminal(task_at(ts, id).spec_status()) {
        ts.update(id - 1, task_at(ts, id).with_status(status))
    } else {
        ts
    }
}

/// Worker `w` belongs to a known task that has not terminated.
pub open spec fn counts_active(ts: Seq<Task>, w: TaskId) -> bool {
    has_id(ts, w) && !terminal(task_at(ts, w).spec_status())
}

/// How many of `workers` belong to known, non-terminal tasks.
pub open spec fn active_count(ts: Seq<Task>, workers: Seq<TaskId>) -> nat
    decreases workers.len(),
{
    if workers.len() == 0 {
        0
    } else {
        active_count(ts, workers.drop_last()) + if counts_active(ts, workers.last()) { 1nat } else { 0nat }
    }
}

/// Free worker slots: `max - active`, or none when `active >= max`.
pub open spec fn free_slots(max: nat, active: nat) -> nat {
    if active >= max { 0 } else { (max - active) as nat }
}

/// `ts[i]` may start: it is pending, its dependencies completed, and no
/// worker runs it yet.
pub open spec fn eligible(ts: Seq<Task>, workers: Seq<TaskId>, i: int) -> bool {
    &&& ts[i].spec_status() is Pending
    &&& deps_completed(ts, i)
    &&& !workers.contains((i + 1) as TaskId)
}

/// The ids of the first `slots` eligible tasks at positions `i..`, in
/// order.
pub open spec fn picked(ts: Seq<Task>, workers: Seq<TaskId>, slots: nat, i: nat) -> Seq<TaskId>
    decreases ts.len() - i,
{
    if i >= ts.len() || slots == 0 {
        Seq::empty()
    } else if eligible(ts, workers, i as int) {
        seq![(i + 1) as TaskId] + picked(ts, workers, (slots - 1) as nat, i + 1)
    } else {
        picked(ts, workers, slots, i + 1)
    }
}

/// The tasks named in `sel` become Running; the others are unchanged.
pub open spec fn mark_running(ts: Seq<Task>, sel: Seq<TaskId>) -> Seq<Task> {
    Seq::new(ts.len(), |i: int| if sel.contains((i + 1) as TaskId) {
        ts[i].with_status(TaskStatus::Running)
    } else {
        ts[i]
    })
}

/// Every id picked from position `i` on names an eligible task at or
/// after `i`, and no more than `slots` are picked.
pub proof fn lemma_picked_eligible(ts: Seq<Task>, workers: Seq<TaskId>, slots: nat, i: nat)
    requires
        ts.len() < u64::MAX,
    ensures
        picked(ts, workers, slots, i).len() <= slots,
        forall|k: int| 0 <= k < picked(ts, workers, slots, i).len() ==> {
            let x = #[trigger] picked(ts, workers, slots, i)[k];
            &&& i + 1 <= x <= ts.len()
            &&& eligible(ts, workers, x - 1)
        },
    decreases ts.len() - i,
{
    if i >= ts.len() || slots == 0 {
    } else if eligible(ts, workers, i as int) {
        lemma_picked_eligible(ts, workers, (slots - 1) as nat, i + 1);
        let rest = picked(ts, workers, (slots - 1) as nat, i + 1);
        assert forall|k: int| 0 <= k < picked(ts, workers, slots, i).len() implies {
            let x = #[trigger] picked(ts, workers, slots, i)[k];
            &&& i + 1 <= x <= ts.len()
            &&& eligible(ts, workers, x - 1)
        } by {
            if k > 0 {
                assert(picked(ts, workers, slots, i)[k] == rest[k - 1]);
            }
        }
    } else {
        lemma_picked_eligible(ts, workers, slots, i + 1);
    }
}

/// `t` belongs to one of the groups `gs`.
pub open spec fn in_groups(t: Task, gs: Seq<GroupId>) -> bool {
    t.spec_group() matches Some(g) && gs.contains(g)
}

/// The ids, in order, of the first `n` tasks that belong to one of `gs`.
pub open spec fn members(ts: Seq<Task>, gs: Seq<GroupId>, n: nat) -> Seq<TaskId>
    decreases n,
{
    if n == 0 {
        Seq::empty()
    } else if in_groups(ts[n - 1], gs) {
        members(ts, gs, (n - 1) as nat).push(n as TaskId)
    } else {
        members(ts, gs, (n - 1) as nat)
    }
}

/// Every non-terminal task that belongs to one of `gs` is cancelled.
pub open spec fn cancel_members(ts: Seq<Task>, gs: Seq<GroupId>) -> Seq<Task> {
    Seq::new(ts.len(), |i: int| if in_groups(ts[i], gs) && !terminal(ts[i].spec_status()) {
        ts[i].with_status(TaskStatus::Cancelled)
    } else {
        ts[i]
    })
}

/// Among the first `n` tasks, how many belong to one of the groups `gs`
/// (`done_only`: and completed).
pub open spec fn scope_count(ts: Seq<Task>, gs: Seq<GroupId>, done_only: bool, n: nat) -> nat
    decreases n,
{
    if n == 0 {
        0
    } else {
        let t = ts[n - 1];
        scope_count(ts, gs, done_only, (n - 1) as nat)
            + if in_groups(t, gs) && (!done_only || t.spec_status() is Completed) { 1nat } else { 0nat }
    }
}

/// Every non-terminal task is cancelled.
pub open spec fn cancel_every(ts: Seq<Task>) -> Seq<Task> {
    Seq::new(ts.len(), |i: int| if !terminal(ts[i].spec_status()) {
        ts[i].with_status(TaskStatus::Cancelled)
    } else {
        ts[i]
    })
}

/// The ids, in order, of the first `n` tasks that are not terminal.
pub open spec fn live_ids(ts: Seq<Task>, n: nat) -> Seq<TaskId>
    decreases n,
{
    if n == 0 {
        Seq::empty()
    } else if !terminal(ts[n - 1].spec_status()) {
        live_ids(ts, (n - 1) as nat).push(n as TaskId)
    } else {
        live_ids(ts, (n - 1) as nat)
    }
}

/// The rank that makes a tree whose children are younger than their
/// parents acyclic.
pub open spec fn age_rank() -> spec_fn(GroupId) -> nat {
    |g: GroupId| (u64::MAX - g) as nat
}

impl TaskManager {
    pub closed spec fn tasks(&self) -> Seq<Task> {
        self.tasks@
    }

    pub closed spec fn group_tree(&self) -> GroupTree {
        self.groups
    }

    pub closed spec fn next_group(&self) -> u64 {
        self.next_group_id
    }

    pub closed spec fn is_started(&self) -> bool {
        self.started
    }

    pub closed spec fn max_conc(&self) -> usize {
        self.max_concurrency
    }

    /// The manager's invariant: task ids are their positions plus one,
    /// the groups are exactly the ids handed out so far, and every child
    /// listed under a parent id is one of them.
    pub open spec fn wf(&self) -> bool {
        &&& forall|i: int| 0 <= i < self.tasks().len() ==> #[trigger] self.tasks()[i].spec_id() == i + 1
        &&& self.tasks().len() < u64::MAX
        &&& 1 <= self.next_group()
        &&& self.max_conc() >= 1
        &&& forall|g: GroupId| #[trigger] self.group_tree().groups().contains_key(g)
            <==> 1 <= g < self.next_group()
        &&& forall|g: GroupId| #[trigger] self.group_tree().groups().contains_key(g)
            ==> self.group_tree().groups()[g].spec_id() == g
        &&& forall|p: GroupId, i: int| 0 <= i < self.group_tree().kids_of(p).len()
            ==> #[trigger] self.group_tree().kids_of(p)[i] < self.next_group()
        &&& self.group_tree().linked()
    }

    /// Every group was added after its parent: each child id is larger
    /// than its parent's.
    pub open spec fn parents_precede(&self) -> bool {
        forall|p: GroupId, i: int| 0 <= i < self.group_tree().kids_of(p).len()
            ==> p < #[trigger] self.group_tree().kids_of(p)[i]
    }

    /// When every group was added after its parent, the group tree is
    /// acyclic.
    pub proof fn lemma_acyclic(&self)
        requires
            self.parents_precede(),
        ensures
            self.group_tree().acyclic(),
            ranked_by(self.group_tree().kids(), age_rank()),
    {
        let t = self.group_tree();
        assert forall|p: GroupId, i: int| 0 <= i < t.kids()(p).len() implies
            #[trigger] age_rank()(t.kids()(p)[i]) < age_rank()(p) by {
            assert(t.kids()(p) == t.kids_of(p));
            assert(p < t.kids_of(p)[i]);
            assert(age_rank()(t.kids()(p)[i]) < age_rank()(p));
        }
        assert(ranked_by(t.kids(), age_rank()));
    }

    /// An empty manager: no tasks, no groups, at most 4 tasks at once,
    /// not started.
    pub fn new() -> (m: Self)
        ensures
            m.wf(),
            m.tasks() == Seq::<Task>::empty(),
            m.group_tree().groups() == Map::<GroupId, TaskGroup>::empty(),
            forall|p: GroupId| m.group_tree().kids_of(p) == Seq::<GroupId>::empty(),
            m.next_group() == 1,
            m.max_conc() == 4,
            !m.is_started(),
            m.parents_precede(),
    {
        TaskManager {
            tasks: Vec::new(),
            groups: GroupTree::new(),
            next_group_id: 1,
            started: false,
            max_concurrency: 4,
        }
    }

    /// The same manager, allowing at most `max(n, 1)` tasks at once.
    pub fn set_max_concurrency(self, n: usize) -> (m: Self)
        requires
            self.wf(),
        ensures
            m.wf(),
            m.max_conc() == if n >= 1 { n } else { 1 },
            m.tasks() == self.tasks(),
            m.group_tree() == self.group_tree(),
            m.next_group() == self.next_group(),
            m.is_started() == self.is_started(),
    {
        let mut m = self;
        m.max_concurrency = if n >= 1 { n } else { 1 };
        assert(m.tasks() == self.tasks());
        assert(m.group_tree() == self.group_tree());
        assert(m.next_group() == self.next_group());
        assert(m.max_conc() >= 1);
        m
    }

    /// Add a group named `name` under `parent`; the new group gets the
    /// next free group id, which is returned. Any parent id is accepted,
    /// also one not handed out yet: the group is listed under it all the
    /// same, and the groups then no longer all follow their parents.
    pub fn add_group(&mut self, name: &str, parent: Option<GroupId>) -> (id: GroupId)
        requires
            old(self).wf(),
            old(self).next_group() < u64::MAX,
        ensures
            final(self).parents_precede() == (old(self).parents_precede()
                && (parent matches Some(p) ==> p < id)),
            final(self).wf(),
            id == old(self).next_group(),
            final(self).next_group() == id + 1,
            final(self).group_tree().groups().contains_key(id),
            final(self).group_tree().groups() == old(self).group_tree().groups().insert(
                id, final(self).group_tree().groups()[id]),
            final(self).group_tree().groups()[id].spec_id() == id,
            final(self).group_tree().groups()[id].spec_name() == name@,
            final(self).group_tree().groups()[id].spec_parent() == parent,
            !final(self).group_tree().groups()[id].spec_collapsed(),
            forall|p: GroupId| #[trigger] final(self).group_tree().kids_of(p) == if parent == Some(p) {
                old(self).group_tree().kids_of(p).push(id)
            } else {
                old(self).group_tree().kids_of(p)
            },
            final(self).tasks() == old(self).tasks(),
            final(self).max_conc() == old(self).max_conc(),
            final(self).is_started() == old(self).is_started(),
    {
        let id = self.next_group_id;
        let g = TaskGroup::with_identity(name, id, parent);
        self.next_group_id = id + 1;
        let r = self.groups.insert(g);
        assert forall|p: GroupId, i: int| 0 <= i < self.group_tree().kids_of(p).len()
            implies #[trigger] self.group_tree().kids_of(p)[i] < self.next_group() by {
            if parent == Some(p) {
                if i < old(self).group_tree().kids_of(p).len() {
                    assert(self.group_tree().kids_of(p)[i] == old(self).group_tree().kids_of(p)[i]);
                }
            } else {
                assert(self.group_tree().kids_of(p) == old(self).group_tree().kids_of(p));
            }
        }
        proof {
            if old(self).parents_precede() && (parent matches Some(q) ==> q < id) {
                assert forall|p: GroupId, i: int| 0 <= i < self.group_tree().kids_of(p).len()
                    implies p < #[trigger] self.group_tree().kids_of(p)[i] by {
                    if parent == Some(p) {
                        if i < old(self).group_tree().kids_of(p).len() {
                            assert(self.group_tree().kids_of(p)[i] == old(self).group_tree().kids_of(p)[i]);
                        }
                    } else {
                        assert(self.group_tree().kids_of(p) == old(self).group_tree().kids_of(p));
                    }
                }
            } else if !old(self).parents_precede() {
                let (p, i) = choose|p: GroupId, i: int| 0 <= i < old(self).group_tree().kids_of(p).len()
                    && !(p < #[trigger] old(self).group_tree().kids_of(p)[i]);
                assert(self.group_tree().kids_of(p)[i] == old(self).group_tree().kids_of(p)[i]);
            } else {
                let q = parent->0;
                let k = old(self).group_tree().kids_of(q).len() as int;
                assert(self.group_tree().kids_of(q)[k] == id);
            }
        }
        r
    }

    /// Add `task` under the next task id, which is returned.
    pub fn add_task(&mut self, task: Task) -> (id: TaskId)
        requires
            old(self).wf(),
            old(self).tasks().len() < u64::MAX - 1,
        ensures
            final(self).wf(),
            id == old(self).tasks().len() + 1,
            final(self).tasks() == old(self).tasks().push(task.with_id(id)),
            final(self).group_tree() == old(self).group_tree(),
            final(self).next_group() == old(self).next_group(),
            final(self).max_conc() == old(self).max_conc(),
            final(self).is_started() == old(self).is_started(),
    {
        let id = (self.tasks.len() as u64) + 1;
        let mut t = task;
        t.set_id(id);
        self.tasks.push(t);
        assert forall|i: int| 0 <= i < self.tasks().len() implies #[trigger] self.tasks()[i].spec_id() == i + 1 by {
            if i < old(self).tasks().len() {
                assert(self.tasks()[i] == old(self).tasks()[i]);
            }
        }
        assert(self.group_tree() == old(self).group_tree());
        assert(self.tasks().len() < u64::MAX);
        id
    }

    /// The task named `id`, if any.
    pub fn get_task(&self, id: TaskId) -> (r: Option<&Task>)
        requires
            self.wf(),
        ensures
            r matches Some(t) ==> has_id(self.tasks(), id) && *t == task_at(self.tasks(), id),
            r is None ==> !has_id(self.tasks(), id),
    {
        if 1 <= id && id <= self.tasks.len() as u64 {
            Some(&self.tasks[(id - 1) as usize])
        } else {
            None
        }
    }

    /// All tasks, in insertion (= id) order.
    pub fn tasks_in_order(&self) -> (r: &[Task])
        ensures
            r@ == self.tasks(),
    {
        self.tasks.as_slice()
    }

    /// The group tree.
    pub fn groups(&self) -> (r: &GroupTree)
        ensures
            *r == self.group_tree(),
    {
        &self.groups
    }

    /// The id the next group will get; every group id below it is in use.
    pub fn next_group_id(&self) -> (r: u64)
        ensures
            r == self.next_group(),
    {
        self.next_group_id
    }

    /// The parent of group `g` when that parent is itself a group.
    fn group_parent(&self, g: GroupId) -> (r: Option<GroupId>)
        requires
            self.wf(),
        ensures
            r matches Some(p) ==> 1 <= p < self.next_group() && self.group_tree().groups().contains_key(g)
                && self.group_tree().groups()[g].spec_parent() == Some(p),
            r is None ==> forall|p: GroupId| 1 <= p < self.next_group() ==> !(self.group_tree().groups().contains_key(g)
                && self.group_tree().groups()[g].spec_parent() == Some(p)),
    {
        match self.groups.get(g) {
            Some(grp) => match grp.parent_id() {
                Some(p) => if 1 <= p && p < self.next_group_id { Some(p) } else { None },
                None => None,
            },
            None => None,
        }
    }

    /// Whether the group tree may hold a cycle: following parent links
    /// from some group does not reach a group without a parent group
    /// within as many steps as there are groups, or the depths found that
    /// way do not grow by one from each parent to its child. When the
    /// answer is `false`, the tree is acyclic.
    pub fn has_cycle(&self) -> (r: bool)
        requires
            self.wf(),
        ensures
            !r ==> self.group_tree().acyclic(),
    {
        let n = self.next_group_id;
        let mut depth: Vec<u64> = Vec::new();
        depth.push(0);
        let mut g: u64 = 1;
        while g < n
            invariant
                1 <= g <= n,
                n == self.next_group(),
                self.wf(),
                depth@.len() == g,
                forall|k: int| 0 <= k < depth@.len() ==> depth@[k] < n,
            decreases n - g,
        {
            let mut cur = g;
            let mut steps: u64 = 0;
            loop
                invariant
                    steps < n,
                    self.wf(),
                    n == self.next_group(),
                decreases n - steps,
            {
                match self.group_parent(cur) {
                    Some(p) => {
                        if steps + 1 >= n {
                            return true;
                        }
                        steps = steps + 1;
                        cur = p;
                    },
                    None => { break; },
                }
            }
            depth.push(steps);
            g = g + 1;
        }
        let ghost d = depth@;
        let mut h: u64 = 1;
        while h < n
            invariant
                1 <= h <= n,
                n == self.next_group(),
                self.wf(),
                depth@ == d,
                d.len() == n,
                forall|k: int| 0 <= k < d.len() ==> d[k] < n,
                forall|c: GroupId| 1 <= c < h ==> match (#[trigger] self.group_tree().groups()[c]).spec_parent() {
                    Some(p) => 1 <= p < n ==> d[c as int] == d[p as int] + 1,
                    None => true,
                },
            decreases n - h,
        {
            match self.group_parent(h) {
                Some(p) => {
                    if depth[h as usize] != depth[p as usize] + 1 {
                        return true;
                    }
                },
                None => {},
            }
            h = h + 1;
        }
        proof {
            let t = self.group_tree();
            let rank = |x: GroupId| if 1 <= x < n { (n + 1 - d[x as int]) as nat } else { (n + 2) as nat };
            assert forall|p: GroupId, i: int| 0 <= i < t.kids()(p).len() implies
                #[trigger] rank(t.kids()(p)[i]) < rank(p) by {
                assert(t.kids()(p) == t.kids_of(p));
                let c = t.kids_of(p)[i];
                assert(t.groups().contains_key(c));
                assert(t.groups()[c].spec_parent() == Some(p));
                if 1 <= p < n {
                    assert(d[c as int] == d[p as int] + 1);
                }
            }
            assert(ranked_by(t.kids(), rank));
        }
        false
    }

    /// The group named `gid`, if any.
    pub fn get_group(&self, gid: GroupId) -> (r: Option<&TaskGroup>)
        requires
            self.wf(),
        ensures
            r matches Some(g) ==> self.group_tree().groups().contains_key(gid)
                && *g == self.group_tree().groups()[gid],
            r is None ==> !self.group_tree().groups().contains_key(gid),
    {
        self.groups.get(gid)
    }
}

/// `ws` holds `id`.
fn contains_id(ws: &[TaskId], id: TaskId) -> (r: bool)
    ensures
        r == ws@.contains(id),
{
    let mut i: usize = 0;
    while i < ws.len()
        invariant
            i <= ws@.len(),
            forall|k: int| 0 <= k < i ==> ws@[k] != id,
        decreases ws@.len() - i,
    {
        if ws[i] == id {
            return true;
        }
        i = i + 1;
    }
    false
}

impl TaskManager {
    /// Set the collapsed flag of group `gid`, if it exists.
    pub fn set_group_collapsed(&mut self, gid: GroupId, collapsed: bool)
        requires
            old(self).wf(),
        ensures
            final(self).wf(),
            final(self).group_tree().groups().dom() == old(self).group_tree().groups().dom(),
            forall|h: GroupId| h != gid && #[trigger] old(self).group_tree().groups().contains_key(h)
                ==> final(self).group_tree().groups()[h] == old(self).group_tree().groups()[h],
            old(self).group_tree().groups().contains_key(gid) ==> {
                let (a, b) = (old(self).group_tree().groups()[gid], final(self).group_tree().groups()[gid]);
                &&& b.spec_id() == a.spec_id()
                &&& b.spec_name() == a.spec_name()
                &&& b.spec_parent() == a.spec_parent()
                &&& b.spec_collapsed() == collapsed
            },
            forall|p: GroupId| #[trigger] final(self).group_tree().kids_of(p) == old(self).group_tree().kids_of(p),
            final(self).tasks() == old(self).tasks(),
            final(self).next_group() == old(self).next_group(),
            final(self).max_conc() == old(self).max_conc(),
            final(self).is_started() == old(self).is_started(),
    {
        self.groups.set_collapsed(gid, collapsed);
        assert forall|g: GroupId| #[trigger] self.group_tree().groups().contains_key(g)
            implies self.group_tree().groups()[g].spec_id() == g by {
            if g != gid {
                assert(old(self).group_tree().groups().contains_key(g));
            }
        }
    }

    /// Give the task named `id` the terminal `status`, unless it is
    /// unknown or already terminal. Returns whether it changed.
    fn finish_task(&mut self, id: TaskId, status: TaskStatus) -> (changed: bool)
        requires
            old(self).wf(),
        ensures
            final(self).wf(),
            final(self).tasks() == finish(old(self).tasks(), id, status),
            changed == (has_id(old(self).tasks(), id) && !terminal(task_at(old(self).tasks(), id).spec_status())),
            final(self).group_tree() == old(self).group_tree(),
            final(self).next_group() == old(self).next_group(),
            final(self).max_conc() == old(self).max_conc(),
            final(self).is_started() == old(self).is_started(),
    {
        if 1 <= id && id <= self.tasks.len() as u64 {
            let idx = (id - 1) as usize;
            if !self.tasks[idx].status().is_terminal() {
                self.tasks[idx].set_status(status);
                assert forall|i: int| 0 <= i < self.tasks().len() implies #[trigger] self.tasks()[i].spec_id() == i + 1 by {
                    if i != idx {
                        assert(self.tasks()[i] == old(self).tasks()[i]);
                    }
                }
                assert(self.tasks().len() == old(self).tasks().len());
                assert(self.group_tree() == old(self).group_tree());
                assert(self.next_group() == old(self).next_group());
                assert(self.max_conc() == old(self).max_conc());
                return true;
            }
        }
        false
    }

    /// Mark the task named `id` cancelled, unless it is unknown or
    /// already terminal. Returns whether it changed.
    pub fn cancel(&mut self, id: TaskId) -> (changed: bool)
        requires
            old(self).wf(),
        ensures
            final(self).wf(),
            final(self).tasks() == finish(old(self).tasks(), id, TaskStatus::Cancelled),
            changed == (has_id(old(self).tasks(), id) && !terminal(task_at(old(self).tasks(), id).spec_status())),
            final(self).group_tree() == old(self).group_tree(),
            final(self).next_group() == old(self).next_group(),
            final(self).max_conc() == old(self).max_conc(),
            final(self).is_started() == old(self).is_started(),
    {
        self.finish_task(id, TaskStatus::Cancelled)
    }

    /// A worker reported that task `id` finished successfully: it becomes
    /// Completed unless it is unknown or already terminal.
    pub fn complete(&mut self, id: TaskId) -> (changed: bool)
        requires
            old(self).wf(),
        ensures
            final(self).wf(),
            final(self).tasks() == finish(old(self).tasks(), id, TaskStatus::Completed),
            changed == (has_id(old(self).tasks(), id) && !terminal(task_at(old(self).tasks(), id).spec_status())),
            final(self).group_tree() == old(self).group_tree(),
            final(self).next_group() == old(self).next_group(),
            final(self).max_conc() == old(self).max_conc(),
            final(self).is_started() == old(self).is_started(),
    {
        self.finish_task(id, TaskStatus::Completed)
    }

    /// A worker reported that task `id` failed with `err`: it becomes
    /// `Failed(err)` unless it is unknown or already terminal.
    pub fn fail(&mut self, id: TaskId, err: String) -> (changed: bool)
        requires
            old(self).wf(),
        ensures
            final(self).wf(),
            final(self).tasks() == finish(old(self).tasks(), id, TaskStatus::Failed(err)),
            changed == (has_id(old(self).tasks(), id) && !terminal(task_at(old(self).tasks(), id).spec_status())),
            final(self).group_tree() == old(self).group_tree(),
            final(self).next_group() == old(self).next_group(),
            final(self).max_conc() == old(self).max_conc(),
            final(self).is_started() == old(self).is_started(),
    {
        self.finish_task(id, TaskStatus::Failed(err))
    }

    /// A worker reported a new status message for task `id` (kept even
    /// when the task is already terminal).
    pub fn set_message(&mut self, id: TaskId, msg: String)
        requires
            old(self).wf(),
        ensures
            final(self).wf(),
            final(self).tasks() == if has_id(old(self).tasks(), id) {
                old(self).tasks().update(id - 1, task_at(old(self).tasks(), id).with_message(msg))
            } else {
                old(self).tasks()
            },
            final(self).group_tree() == old(self).group_tree(),
            final(self).next_group() == old(self).next_group(),
            final(self).max_conc() == old(self).max_conc(),
            final(self).is_started() == old(self).is_started(),
    {
        if 1 <= id && id <= self.tasks.len() as u64 {
            let idx = (id - 1) as usize;
            self.tasks[idx].set_message(msg);
            assert forall|i: int| 0 <= i < self.tasks().len() implies #[trigger] self.tasks()[i].spec_id() == i + 1 by {
                if i != idx {
                    assert(self.tasks()[i] == old(self).tasks()[i]);
                }
            }
            assert(self.tasks().len() == old(self).tasks().len());
            assert(self.group_tree() == old(self).group_tree());
            assert(self.next_group() == old(self).next_group());
            assert(self.max_conc() == old(self).max_conc());
        }
    }

    /// Begin scheduling: the manager is started and the eligible tasks
    /// are picked as by [`schedule_ready`](Self::schedule_ready).
    pub fn start(&mut self, workers: &[TaskId]) -> (spawn: Vec<TaskId>)
        requires
            old(self).wf(),
        ensures
            final(self).wf(),
            final(self).is_started(),
            spawn@ == picked(old(self).tasks(), workers@,
                free_slots(old(self).max_conc() as nat, active_count(old(self).tasks(), workers@)), 0),
            final(self).tasks() == mark_running(old(self).tasks(), spawn@),
            final(self).group_tree() == old(self).group_tree(),
            final(self).next_group() == old(self).next_group(),
            final(self).max_conc() == old(self).max_conc(),
    {
        self.started = true;
        assert(self.tasks() == old(self).tasks());
        assert(self.group_tree() == old(self).group_tree());
        assert(self.next_group() == old(self).next_group());
        assert(self.max_conc() == old(self).max_conc());
        self.schedule_ready(workers)
    }

    /// Decide which tasks start now. `workers` lists the task of every
    /// live worker. The free slots are `max_concurrency` minus the workers
    /// whose task is not terminal; in insertion order, pending tasks whose
    /// dependencies all completed and that have no worker fill them. The
    /// picked tasks become Running and their ids are returned, for the
    /// caller to start.
    pub fn schedule_ready(&mut self, workers: &[TaskId]) -> (spawn: Vec<TaskId>)
        requires
            old(self).wf(),
        ensures
            final(self).wf(),
            spawn@ == picked(old(self).tasks(), workers@,
                free_slots(old(self).max_conc() as nat, active_count(old(self).tasks(), workers@)), 0),
            final(self).tasks() == mark_running(old(self).tasks(), spawn@),
            final(self).group_tree() == old(self).group_tree(),
            final(self).next_group() == old(self).next_group(),
            final(self).max_conc() == old(self).max_conc(),
            final(self).is_started() == old(self).is_started(),
    {
        let ghost ts = self.tasks();
        let nw = workers.len();
        let mut active: usize = 0;
        let mut k: usize = 0;
        while k < nw
            invariant
                nw == workers@.len(),
                k <= nw,
                active <= k,
                active == active_count(ts, workers@.subrange(0, k as int)),
                ts == self.tasks(),
                self.wf(),
            decreases nw - k,
        {
            let w = workers[k];
            let is_active = 1 <= w && w <= self.tasks.len() as u64
                && !self.tasks[(w - 1) as usize].status().is_terminal();
            assert(workers@.subrange(0, k + 1).drop_last() == workers@.subrange(0, k as int));
            if is_active {
                active = active + 1;
            }
            k = k + 1;
        }
        assert(workers@.subrange(0, nw as int) == workers@);
        let slots: usize = if active >= self.max_concurrency { 0 } else { self.max_concurrency - active };
        let ghost target = picked(ts, workers@, slots as nat, 0);
        let n = self.tasks.len();
        let mut sel: Vec<TaskId> = Vec::new();
        let mut left: usize = slots;
        let mut i: usize = 0;
        while i < n
            invariant_except_break
                sel@ + picked(ts, workers@, left as nat, i as nat) == target,
            invariant
                n == ts.len(),
                i <= n,
                ts == self.tasks(),
                self.wf(),
            ensures
                sel@ == target,
            decreases n - i,
        {
            if left == 0 {
                assert(sel@ + Seq::<TaskId>::empty() == sel@);
                break;
            }
            let id = (i as u64) + 1;
            let pending = match self.tasks[i].status() {
                TaskStatus::Pending => true,
                _ => false,
            };
            let ok = pending && self.deps_satisfied(id) && !contains_id(workers, id);
            if ok {
                assert(eligible(ts, workers@, i as int));
                sel.push(id);
                assert(seq![id] + picked(ts, workers@, (left - 1) as nat, (i + 1) as nat)
                    == picked(ts, workers@, left as nat, i as nat));
                assert(sel@ + picked(ts, workers@, (left - 1) as nat, (i + 1) as nat) == target);
                left = left - 1;
            } else {
                assert(!eligible(ts, workers@, i as int));
            }
            i = i + 1;
        }
        proof {
            lemma_picked_eligible(ts, workers@, slots as nat, 0);
        }
        let ns = sel.len();
        let mut j: usize = 0;
        while j < ns
            invariant
                ns == sel@.len(),
                sel@ == target,
                j <= ns,
                n == ts.len(),
                self.tasks() == mark_running(ts, sel@.subrange(0, j as int)),
                forall|k: int| 0 <= k < sel@.len() ==> 1 <= #[trigger] sel@[k] <= ts.len(),
                ts.len() < u64::MAX,
                forall|i: int| 0 <= i < ts.len() ==> #[trigger] ts[i].spec_id() == i + 1,
                self.group_tree() == old(self).group_tree(),
                self.next_group() == old(self).next_group(),
                self.max_conc() == old(self).max_conc(),
                self.is_started() == old(self).is_started(),
                old(self).wf(),
            decreases ns - j,
        {
            let id = sel[j];
            let idx = (id - 1) as usize;
            let ghost before = self.tasks();
            self.tasks[idx].set_status(TaskStatus::Running);
            proof {
                let sub = sel@.subrange(0, j as int);
                let sub1 = sel@.subrange(0, j + 1);
                assert forall|x: TaskId| sub1.contains(x) <==> (sub.contains(x) || x == id) by {
                    if sub1.contains(x) {
                        let q = choose|q: int| 0 <= q < sub1.len() && sub1[q] == x;
                        if q < j {
                            assert(sub[q] == x);
                        }
                    }
                    if sub.contains(x) {
                        let q = choose|q: int| 0 <= q < sub.len() && sub[q] == x;
                        assert(sub1[q] == x);
                    }
                    if x == id {
                        assert(sub1[j as int] == x);
                    }
                }
                ts[idx as int].lemma_with_status_twice(TaskStatus::Running, TaskStatus::Running);
                assert(self.tasks() =~= mark_running(ts, sub1));
            }
            j = j + 1;
        }
        assert(sel@.subrange(0, ns as int) == sel@);
        proof {
            assert forall|i: int| 0 <= i < self.tasks().len() implies #[trigger] self.tasks()[i].spec_id() == i + 1 by {
                assert(ts[i].spec_id() == i + 1);
            }
        }
        sel
    }

    /// Cancel every task in group `gid` and its sub-groups: each such
    /// task that is not terminal becomes Cancelled. Returns the ids of all
    /// tasks in those groups (terminal ones included), in id order.
    pub fn cancel_group(&mut self, gid: GroupId) -> (ids: Vec<TaskId>)
        requires
            old(self).wf(),
            old(self).group_tree().acyclic(),
        ensures
            final(self).wf(),
            ids@ == members(old(self).tasks(), old(self).group_tree().subtree(gid), old(self).tasks().len()),
            final(self).tasks() == cancel_members(old(self).tasks(), old(self).group_tree().subtree(gid)),
            final(self).group_tree() == old(self).group_tree(),
            final(self).next_group() == old(self).next_group(),
            final(self).max_conc() == old(self).max_conc(),
            final(self).is_started() == old(self).is_started(),
    {
        let desc = self.groups.walk(gid);
        let ghost ts = self.tasks();
        let ghost gs = desc@;
        let n = self.tasks.len();
        let mut ids: Vec<TaskId> = Vec::new();
        let mut i: usize = 0;
        while i < n
            invariant
                n == ts.len(),
                i <= n,
                gs == desc@,
                ids@ == members(ts, gs, i as nat),
                self.tasks().len() == n,
                forall|k: int| 0 <= k < i ==> #[trigger] self.tasks()[k] == cancel_members(ts, gs)[k],
                forall|k: int| i <= k < n ==> #[trigger] self.tasks()[k] == ts[k],
                ts.len() < u64::MAX,
                self.group_tree() == old(self).group_tree(),
                self.next_group() == old(self).next_group(),
                self.max_conc() == old(self).max_conc(),
                self.is_started() == old(self).is_started(),
            decreases n - i,
        {
            let member = match self.tasks[i].group_id() {
                Some(g) => contains_id(desc.as_slice(), g),
                None => false,
            };
            assert(member == in_groups(ts[i as int], gs));
            if member {
                ids.push((i as u64) + 1);
                if !self.tasks[i].status().is_terminal() {
                    self.tasks[i].set_status(TaskStatus::Cancelled);
                }
            }
            i = i + 1;
        }
        assert(self.tasks() =~= cancel_members(ts, gs));
        assert forall|k: int| 0 <= k < self.tasks().len() implies #[trigger] self.tasks()[k].spec_id() == k + 1 by {
            assert(ts[k].spec_id() == k + 1);
        }
        ids
    }

    /// Cancel every task that is not terminal yet ("Cancel all");
    /// returns their ids, in id order.
    pub fn cancel_all(&mut self) -> (ids: Vec<TaskId>)
        requires
            old(self).wf(),
        ensures
            final(self).wf(),
            ids@ == live_ids(old(self).tasks(), old(self).tasks().len()),
            final(self).tasks() == cancel_every(old(self).tasks()),
            final(self).group_tree() == old(self).group_tree(),
            final(self).next_group() == old(self).next_group(),
            final(self).max_conc() == old(self).max_conc(),
            final(self).is_started() == old(self).is_started(),
    {
        let ghost ts = self.tasks();
        let n = self.tasks.len();
        let mut ids: Vec<TaskId> = Vec::new();
        let mut i: usize = 0;
        while i < n
            invariant
                n == ts.len(),
                i <= n,
                ids@ == live_ids(ts, i as nat),
                self.tasks().len() == n,
                forall|k: int| 0 <= k < i ==> #[trigger] self.tasks()[k] == cancel_every(ts)[k],
                forall|k: int| i <= k < n ==> #[trigger] self.tasks()[k] == ts[k],
                ts.len() < u64::MAX,
                forall|k: int| 0 <= k < ts.len() ==> #[trigger] ts[k].spec_id() == k + 1,
                self.group_tree() == old(self).group_tree(),
                self.next_group() == old(self).next_group(),
                self.max_conc() == old(self).max_conc(),
                self.is_started() == old(self).is_started(),
            decreases n - i,
        {
            if !self.tasks[i].status().is_terminal() {
                ids.push((i as u64) + 1);
                self.tasks[i].set_status(TaskStatus::Cancelled);
            }
            i = i + 1;
        }
        proof {
            assert(self.tasks() =~= cancel_every(ts));
            assert forall|k: int| 0 <= k < self.tasks().len() implies #[trigger] self.tasks()[k].spec_id() == k + 1 by {
                assert(self.tasks()[k] == cancel_every(ts)[k]);
            }
        }
        ids
    }

    /// Progress counts of group `gid`: `(completed, total)` over the tasks
    /// in `gid` or in any group below it.
    pub fn group_counts(&self, gid: GroupId) -> (r: (usize, usize))
        requires
            self.wf(),
            self.group_tree().acyclic(),
        ensures
            r.0 == scope_count(self.tasks(), self.group_tree().subtree(gid), true, self.tasks().len()),
            r.1 == scope_count(self.tasks(), self.group_tree().subtree(gid), false, self.tasks().len()),
            r.0 <= r.1,
    {
        let desc = self.groups.walk(gid);
        let n = self.tasks.len();
        let mut done: usize = 0;
        let mut total: usize = 0;
        let mut i: usize = 0;
        while i < n
            invariant
                n == self.tasks().len(),
                desc@ == self.group_tree().subtree(gid),
                i <= n,
                done <= total <= i,
                done == scope_count(self.tasks(), desc@, true, i as nat),
                total == scope_count(self.tasks(), desc@, false, i as nat),
            decreases n - i,
        {
            let inside = match self.tasks[i].group_id() {
                Some(g) => contains_id(desc.as_slice(), g),
                None => false,
            };
            if inside {
                total = total + 1;
                match self.tasks[i].status() {
                    TaskStatus::Completed => { done = done + 1; },
                    _ => {},
                }
            }
            i = i + 1;
        }
        (done, total)
    }

    /// True if every task is in a terminal state.
    pub fn all_done(&self) -> (r: bool)
        ensures
            r == forall|i: int| 0 <= i < self.tasks().len() ==> terminal(#[trigger] self.tasks()[i].spec_status()),
    {
        let n = self.tasks.len();
        let mut i: usize = 0;
        while i < n
            invariant
                n == self.tasks().len(),
                i <= n,
                forall|j: int| 0 <= j < i ==> terminal(#[trigger] self.tasks()[j].spec_status()),
            decreases n - i,
        {
            if !self.tasks[i].status().is_terminal() {
                return false;
            }
            i = i + 1;
        }
        true
    }

    /// True if task `id` exists and each of its dependencies names a task
    /// that has completed.
    pub fn deps_satisfied(&self, id: TaskId) -> (r: bool)
        requires
            self.wf(),
        ensures
            r == (has_id(self.tasks(), id) && deps_completed(self.tasks(), id - 1)),
    {
        if id < 1 || id > self.tasks.len() as u64 {
            return false;
        }
        let idx = (id - 1) as usize;
        let deps = self.tasks[idx].dependencies();
        let n = deps.len();
        let mut j: usize = 0;
        while j < n
            invariant
                1 <= id <= self.tasks().len(),
                idx == id - 1,
                deps@ == self.tasks()[idx as int].spec_deps(),
                n == deps@.len(),
                j <= n,
                forall|k: int| 0 <= k < j ==> {
                    let d = #[trigger] self.tasks()[idx as int].spec_deps()[k];
                    has_id(self.tasks(), d) && task_at(self.tasks(), d).spec_status() is Completed
                },
            decreases n - j,
        {
            let d = deps[j];
            assert(self.tasks()[idx as int].spec_deps()[j as int] == d);
            if d < 1 || d > self.tasks.len() as u64 {
                return false;
            }
            match self.tasks[(d - 1) as usize].status() {
                TaskStatus::Completed => {},
                _ => { return false; },
            }
            j = j + 1;
        }
        true
    }
}

} // verus!
