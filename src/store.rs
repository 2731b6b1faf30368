//! The task state store: the mapping from task id to task record that the
//! execution engine advances and the control protocol reads and mutates.
use vstd::prelude::*;

use crate::task::{TaskInfo, TaskStatus};

verus! {

/// Task ids are unique within a store.
pub open spec fn ids_unique(s: Seq<TaskInfo>) -> bool {
    forall|i: int, j: int| 0 <= i < j < s.len() ==> #[trigger] s[i].id != #[trigger] s[j].id
}

/// Whether a task with this id is known.
pub open spec fn has_task(s: Seq<TaskInfo>, id: u32) -> bool {
    exists|i: int| 0 <= i < s.len() && #[trigger] s[i].id == id
}

/// The task with this id, if any.
pub open spec fn task_of(s: Seq<TaskInfo>, id: u32) -> Option<TaskInfo> {
    if has_task(s, id) {
        Some(s[choose|i: int| 0 <= i < s.len() && #[trigger] s[i].id == id])
    } else {
        None
    }
}

/// The status of the task with this id, if any.
pub open spec fn status_of(s: Seq<TaskInfo>, id: u32) -> Option<TaskStatus> {
    match task_of(s, id) {
        Some(t) => Some(t.status),
        None => None,
    }
}

/// Every task whose id is listed takes `st`; the others are unchanged.
pub open spec fn with_status(s: Seq<TaskInfo>, ids: Seq<u32>, st: TaskStatus) -> Seq<TaskInfo> {
    s.map_values(|t: TaskInfo| if ids.contains(t.id) { TaskInfo { status: st, ..t } } else { t })
}

/// The task with this id records `completed` units, when that neither goes
/// back nor passes its total.
pub open spec fn with_progress(s: Seq<TaskInfo>, id: u32, completed: usize) -> Seq<TaskInfo> {
    s.map_values(
        |t: TaskInfo|
            if t.id == id && t.completed <= completed <= t.total {
                TaskInfo { completed: completed, ..t }
            } else {
                t
            },
    )
}

/// The task with this id counts one more unit, unless it is already at its total.
pub open spec fn with_unit_done(s: Seq<TaskInfo>, id: u32) -> Seq<TaskInfo> {
    s.map_values(
        |t: TaskInfo|
            if t.id == id && t.completed < t.total {
                TaskInfo { completed: (t.completed + 1) as usize, ..t }
            } else {
                t
            },
    )
}

/// The store after `task` is added, replacing a task of the same id.
pub open spec fn with_task(s: Seq<TaskInfo>, task: TaskInfo) -> Seq<TaskInfo> {
    if has_task(s, task.id) {
        s.update(choose|i: int| 0 <= i < s.len() && #[trigger] s[i].id == task.id, task)
    } else {
        s.push(task)
    }
}

/// Whether units of the task `id` are allowed to proceed: any status but `Stopped`.
pub open spec fn may_proceed(s: Seq<TaskInfo>, id: u32) -> bool {
    status_of(s, id) != Some(TaskStatus::Stopped)
}

/// The shared store of tasks.
pub struct TaskStore {
    tasks: Vec<TaskInfo>,
    next_id: u32,
}

impl View for TaskStore {
    type V = Seq<TaskInfo>;

    closed spec fn view(&self) -> Seq<TaskInfo> {
        self.tasks@
    }
}

proof fn lemma_task_at(s: Seq<TaskInfo>, i: int)
    requires
        ids_unique(s),
        0 <= i < s.len(),
    ensures
        has_task(s, s[i].id),
        task_of(s, s[i].id) == Some(s[i]),
{
    assert(has_task(s, s[i].id));
    let k = choose|k: int| 0 <= k < s.len() && #[trigger] s[k].id == s[i].id;
    if k != i {
        if k < i {
            assert(s[k].id != s[i].id);
        } else {
            assert(s[i].id != s[k].id);
        }
    }
}

proof fn lemma_map_keeps_ids(s: Seq<TaskInfo>, r: Seq<TaskInfo>)
    requires
        ids_unique(s),
        r.len() == s.len(),
        forall|i: int| 0 <= i < s.len() ==> (#[trigger] r[i]).id == s[i].id,
    ensures
        ids_unique(r),
        forall|id: u32| has_task(r, id) == has_task(s, id),
{
    assert forall|i: int, j: int| 0 <= i < j < r.len() implies #[trigger] r[i].id != #[trigger] r[j].id by {
        assert(s[i].id != s[j].id);
    }
    assert forall|id: u32| has_task(r, id) == has_task(s, id) by {
        if has_task(r, id) {
            let i = choose|i: int| 0 <= i < r.len() && #[trigger] r[i].id == id;
            assert(s[i].id == id);
        }
        if has_task(s, id) {
            let i = choose|i: int| 0 <= i < s.len() && #[trigger] s[i].id == id;
            assert(r[i].id == id);
        }
    }
}

impl TaskStore {
    /// Ids are unique and no task has passed its total.
    pub closed spec fn wf(&self) -> bool {
        &&& ids_unique(self.tasks@)
        &&& forall|i: int| 0 <= i < self.tasks@.len() ==> (#[trigger] self.tasks@[i]).wf()
    }

    /// In a well-formed store no two tasks share an id.
    pub proof fn lemma_wf_ids_unique(&self)
        requires
            self.wf(),
        ensures
            ids_unique(self@),
    {
    }

    /// The id the next allocation hands out.
    pub closed spec fn next_id_spec(&self) -> u32 {
        self.next_id
    }

    /// An empty store whose first id is 1.
    pub fn new() -> (r: TaskStore)
        ensures
            r.wf(),
            r@ == Seq::<TaskInfo>::empty(),
            r.next_id_spec() == 1,
    {
        TaskStore { tasks: Vec::new(), next_id: 1 }
    }

    /// Hands out a fresh id; ids only grow, so none is handed out twice.
    /// `None` once the id space is spent.
    pub fn allocate_id(&mut self) -> (r: Option<u32>)
        ensures
            final(self)@ == old(self)@,
            final(self).wf() == old(self).wf(),
            old(self).next_id_spec() < u32::MAX ==> r == Some(old(self).next_id_spec())
                && final(self).next_id_spec() == old(self).next_id_spec() + 1,
            old(self).next_id_spec() == u32::MAX ==> r is None && final(self).next_id_spec()
                == u32::MAX,
    {
        if self.next_id == u32::MAX {
            return None;
        }
        let id = self.next_id;
        self.next_id = self.next_id + 1;
        Some(id)
    }

    /// The position of the task with this id.
    fn position(&self, id: u32) -> (r: Option<usize>)
        requires
            self.wf(),
        ensures
            r matches Some(i) ==> i < self.tasks@.len() && self.tasks@[i as int].id == id
                && task_of(self.tasks@, id) == Some(self.tasks@[i as int]),
            r is None ==> !has_task(self.tasks@, id),
    {
        let mut i: usize = 0;
        while i < self.tasks.len()
            invariant
                ids_unique(self.tasks@),
                i <= self.tasks@.len(),
                forall|k: int| 0 <= k < i ==> self.tasks@[k].id != id,
            decreases self.tasks@.len() - i,
        {
            if self.tasks[i].id == id {
                proof {
                    lemma_task_at(self.tasks@, i as int);
                }
                return Some(i);
            }
            i = i + 1;
        }
        None
    }

    /// Adds a task, replacing a task of the same id.
    pub fn add_task(&mut self, task: TaskInfo)
        requires
            old(self).wf(),
            task.wf(),
        ensures
            final(self).wf(),
            final(self)@ == with_task(old(self)@, task),
            final(self).next_id_spec() == old(self).next_id_spec(),
    {
        match self.position(task.id) {
            Some(i) => {
                proof {
                    lemma_task_at(self.tasks@, i as int);
                }
                let ghost k = choose|k: int| 0 <= k < self.tasks@.len() && #[trigger] self.tasks@[k].id
                    == task.id;
                proof {
                    lemma_task_at(self.tasks@, k);
                    if k != i {
                        if k < i {
                            assert(self.tasks@[k].id != self.tasks@[i as int].id);
                        } else {
                            assert(self.tasks@[i as int].id != self.tasks@[k].id);
                        }
                    }
                }
                let ghost before = self.tasks@;
                self.tasks.set(i, task);
                proof {
                    lemma_map_keeps_ids(before, self.tasks@);
                }
            },
            None => {
                let ghost before = self.tasks@;
                self.tasks.push(task);
                assert forall|a: int, b: int| 0 <= a < b < self.tasks@.len() implies #[trigger] self.tasks@[a].id
                    != #[trigger] self.tasks@[b].id by {
                    if b == before.len() {
                        assert(before[a].id != task.id);
                    } else {
                        assert(before[a].id != before[b].id);
                    }
                }
            },
        }
    }

    /// The status of a task, if known.
    pub fn get_task_status(&self, task_id: u32) -> (r: Option<TaskStatus>)
        requires
            self.wf(),
        ensures
            r == status_of(self@, task_id),
    {
        match self.position(task_id) {
            Some(i) => Some(self.tasks[i].status),
            None => None,
        }
    }

    /// A copy of a task's record, if known.
    pub fn get_task_info(&self, task_id: u32) -> (r: Option<TaskInfo>)
        requires
            self.wf(),
        ensures
            r == task_of(self@, task_id),
    {
        match self.position(task_id) {
            Some(i) => Some(self.tasks[i].snapshot()),
            None => None,
        }
    }

    /// Whether units of the task `task_id` are allowed to proceed; an unknown id stops nothing.
    pub fn unit_may_proceed(&self, task_id: u32) -> (r: bool)
        requires
            self.wf(),
        ensures
            r == may_proceed(self@, task_id),
    {
        match self.get_task_status(task_id) {
            Some(TaskStatus::Stopped) => false,
            _ => true,
        }
    }

    /// Every listed task takes status `st`; unknown ids are ignored.
    pub fn set_status_of(&mut self, ids: &Vec<u32>, st: TaskStatus)
        requires
            old(self).wf(),
        ensures
            final(self).wf(),
            final(self)@ == with_status(old(self)@, ids@, st),
            final(self).next_id_spec() == old(self).next_id_spec(),
    {
        let ghost s0 = self.tasks@;
        let mut i: usize = 0;
        while i < self.tasks.len()
            invariant
                self.tasks@.len() == s0.len(),
                i <= s0.len(),
                ids_unique(s0),
                forall|k: int| 0 <= k < s0.len() ==> (#[trigger] s0[k]).wf(),
                forall|k: int| 0 <= k < i ==> self.tasks@[k] == with_status(s0, ids@, st)[k],
                forall|k: int| i <= k < s0.len() ==> self.tasks@[k] == s0[k],
                self.next_id == old(self).next_id,
            decreases s0.len() - i,
        {
            let id = self.tasks[i].id;
            if vec_contains(ids, id) {
                let mut t = self.tasks[i].snapshot();
                t.status = st;
                self.tasks.set(i, t);
            }
            i = i + 1;
        }
        assert(self.tasks@ =~= with_status(s0, ids@, st));
        proof {
            lemma_map_keeps_ids(s0, self.tasks@);
        }
    }

    /// The task with this id takes status `st`; an unknown id is ignored.
    pub fn set_task_status(&mut self, task_id: u32, status: TaskStatus)
        requires
            old(self).wf(),
        ensures
            final(self).wf(),
            final(self)@ == with_status(old(self)@, seq![task_id], status),
            final(self).next_id_spec() == old(self).next_id_spec(),
    {
        let mut ids: Vec<u32> = Vec::new();
        ids.push(task_id);
        assert(ids@ =~= seq![task_id]);
        self.set_status_of(&ids, status);
    }

    /// Records the progress of a task; progress never goes back nor passes
    /// the total, so a value that would is ignored.
    pub fn update_task_progress(&mut self, task_id: u32, completed: usize)
        requires
            old(self).wf(),
        ensures
            final(self).wf(),
            final(self)@ == with_progress(old(self)@, task_id, completed),
            final(self).next_id_spec() == old(self).next_id_spec(),
    {
        let ghost s0 = self.tasks@;
        match self.position(task_id) {
            Some(i) => {
                if self.tasks[i].completed <= completed && completed <= self.tasks[i].total {
                    let mut t = self.tasks[i].snapshot();
                    t.completed = completed;
                    self.tasks.set(i, t);
                }
                assert forall|k: int| 0 <= k < s0.len() implies #[trigger] self.tasks@[k]
                    == with_progress(s0, task_id, completed)[k] by {
                    if k != i {
                        if k < i {
                            assert(s0[k].id != s0[i as int].id);
                        } else {
                            assert(s0[i as int].id != s0[k].id);
                        }
                    }
                }
            },
            None => {
                assert forall|k: int| 0 <= k < s0.len() implies #[trigger] self.tasks@[k]
                    == with_progress(s0, task_id, completed)[k] by {
                    assert(s0[k].id != task_id);
                }
            },
        }
        assert(self.tasks@ =~= with_progress(s0, task_id, completed));
        proof {
            lemma_map_keeps_ids(s0, self.tasks@);
        }
    }

    /// Counts one finished unit of a task, never past its total.
    pub fn record_unit_done(&mut self, task_id: u32)
        requires
            old(self).wf(),
        ensures
            final(self).wf(),
            final(self)@ == with_unit_done(old(self)@, task_id),
            final(self).next_id_spec() == old(self).next_id_spec(),
    {
        let ghost s0 = self.tasks@;
        match self.position(task_id) {
            Some(i) => {
                if self.tasks[i].completed < self.tasks[i].total {
                    let mut t = self.tasks[i].snapshot();
                    t.completed = t.completed + 1;
                    self.tasks.set(i, t);
                }
                assert forall|k: int| 0 <= k < s0.len() implies #[trigger] self.tasks@[k]
                    == with_unit_done(s0, task_id)[k] by {
                    if k != i {
                        if k < i {
                            assert(s0[k].id != s0[i as int].id);
                        } else {
                            assert(s0[i as int].id != s0[k].id);
                        }
                    }
                }
            },
            None => {
                assert forall|k: int| 0 <= k < s0.len() implies #[trigger] self.tasks@[k]
                    == with_unit_done(s0, task_id)[k] by {
                    assert(s0[k].id != task_id);
                }
            },
        }
        assert(self.tasks@ =~= with_unit_done(s0, task_id));
        proof {
            lemma_map_keeps_ids(s0, self.tasks@);
        }
    }

    /// Copies of every task, in the order they were added.
    pub fn tasks(&self) -> (r: Vec<TaskInfo>)
        ensures
            r@ == self@,
    {
        let mut r: Vec<TaskInfo> = Vec::new();
        let mut i: usize = 0;
        while i < self.tasks.len()
            invariant
                i <= self.tasks@.len(),
                r@ == self.tasks@.take(i as int),
            decreases self.tasks@.len() - i,
        {
            r.push(self.tasks[i].snapshot());
            i = i + 1;
            assert(r@ =~= self.tasks@.take(i as int));
        }
        assert(self.tasks@.take(self.tasks@.len() as int) =~= self.tasks@);
        r
    }
}

/// Whether `v` holds `x`.
fn vec_contains(v: &Vec<u32>, x: u32) -> (r: bool)
    ensures
        r == v@.contains(x),
{
    let mut i: usize = 0;
    while i < v.len()
        invariant
            i <= v@.len(),
            forall|k: int| 0 <= k < i ==> v@[k] != x,
        decreases v@.len() - i,
    {
        if v[i] == x {
            return true;
        }
        i = i + 1;
    }
    false
}

/// In a store with unique ids, a status change reaches exactly the listed
/// tasks: each takes the new status, and progress and totals stay.
pub proof fn lemma_with_status_lookup(s: Seq<TaskInfo>, ids: Seq<u32>, st: TaskStatus, id: u32)
    requires
        ids_unique(s),
    ensures
        ids_unique(with_status(s, ids, st)),
        has_task(with_status(s, ids, st), id) == has_task(s, id),
        has_task(s, id) ==> task_of(with_status(s, ids, st), id) == Some(
            if ids.contains(id) {
                TaskInfo { status: st, ..task_of(s, id).unwrap() }
            } else {
                task_of(s, id).unwrap()
            },
        ),
{
    let r = with_status(s, ids, st);
    lemma_map_keeps_ids(s, r);
    if has_task(s, id) {
        let i = choose|i: int| 0 <= i < s.len() && #[trigger] s[i].id == id;
        lemma_task_at(s, i);
        lemma_task_at(r, i);
    }
}

/// After a Stop of a known task, its status reads `Stopped` and none of its
/// units that has not yet passed the cancellation check may run.
pub proof fn lemma_stop_is_observed(s: Seq<TaskInfo>, ids: Seq<u32>, id: u32)
    requires
        ids_unique(s),
        has_task(s, id),
        ids.contains(id),
    ensures
        status_of(with_status(s, ids, TaskStatus::Stopped), id) == Some(TaskStatus::Stopped),
        !may_proceed(with_status(s, ids, TaskStatus::Stopped), id),
        forall|i: int|
            0 <= i < s.len() && (#[trigger] with_status(s, ids, TaskStatus::Stopped)[i]).id == id
                ==> with_status(s, ids, TaskStatus::Stopped)[i].status == TaskStatus::Stopped,
{
    lemma_with_status_lookup(s, ids, TaskStatus::Stopped, id);
}

/// Pausing then resuming known tasks leaves them `Running`, with progress
/// and totals as they were.
pub proof fn lemma_pause_resume(s: Seq<TaskInfo>, ids: Seq<u32>, id: u32)
    requires
        ids_unique(s),
        has_task(s, id),
        ids.contains(id),
    ensures
        ({
            let after = with_status(with_status(s, ids, TaskStatus::Paused), ids, TaskStatus::Running);
            &&& task_of(after, id) matches Some(t)
            &&& t.status == TaskStatus::Running
            &&& t.completed == task_of(s, id).unwrap().completed
            &&& t.total == task_of(s, id).unwrap().total
        }),
{
    let paused = with_status(s, ids, TaskStatus::Paused);
    lemma_with_status_lookup(s, ids, TaskStatus::Paused, id);
    lemma_with_status_lookup(paused, ids, TaskStatus::Running, id);
}

/// The store after `m` units of task `id` have been counted.
pub open spec fn after_units(s: Seq<TaskInfo>, id: u32, m: nat) -> Seq<TaskInfo>
    decreases m,
{
    if m == 0 {
        s
    } else {
        with_unit_done(after_units(s, id, (m - 1) as nat), id)
    }
}

proof fn lemma_unit_done_lookup(s: Seq<TaskInfo>, id: u32)
    requires
        ids_unique(s),
        has_task(s, id),
    ensures
        ids_unique(with_unit_done(s, id)),
        has_task(with_unit_done(s, id), id),
        task_of(with_unit_done(s, id), id) == Some(
            if task_of(s, id).unwrap().completed < task_of(s, id).unwrap().total {
                TaskInfo {
                    completed: (task_of(s, id).unwrap().completed + 1) as usize,
                    ..task_of(s, id).unwrap()
                }
            } else {
                task_of(s, id).unwrap()
            },
        ),
{
    let r = with_unit_done(s, id);
    lemma_map_keeps_ids(s, r);
    let i = choose|i: int| 0 <= i < s.len() && #[trigger] s[i].id == id;
    lemma_task_at(s, i);
    lemma_task_at(r, i);
}

/// Counting one finished unit at a time, a task that starts at `completed`
/// reaches `completed + m` after `m` units, up to its total: a batch of `N`
/// units on a task of total `N` ends with `N` completed when none was abandoned.
pub proof fn lemma_completed_counts_units(s: Seq<TaskInfo>, id: u32, m: nat)
    requires
        ids_unique(s),
        has_task(s, id),
        task_of(s, id).unwrap().completed + m <= task_of(s, id).unwrap().total,
    ensures
        ids_unique(after_units(s, id, m)),
        has_task(after_units(s, id, m), id),
        task_of(after_units(s, id, m), id) == Some(
            TaskInfo {
                completed: (task_of(s, id).unwrap().completed + m) as usize,
                ..task_of(s, id).unwrap()
            },
        ),
    decreases m,
{
    if m > 0 {
        lemma_completed_counts_units(s, id, (m - 1) as nat);
        lemma_unit_done_lookup(after_units(s, id, (m - 1) as nat), id);
    }
}

} // verus!
